//! Penny-exact distribution of an amount across several recipients.
//!
//! Every split goes through [`allocate`], which uses the largest remainder
//! method: each part gets the floor of its proportional share and the leftover
//! minor units are handed out one at a time to the parts with the biggest
//! fractional remainder (ties broken by index, so the result is deterministic).
//! The parts sum exactly back to the input.

use vstd::arithmetic::div_mod::{
    lemma_fundamental_div_mod, lemma_fundamental_div_mod_converse, lemma_mod_bound,
};
use vstd::prelude::*;
use vstd::set_lib::{lemma_int_range, lemma_len_subset, set_int_range};

use crate::error::{Error, ErrorView};
use crate::folds::lemma_prefix_finding_stays;
use crate::money::{all_in, minors, Currency, Money};
use crate::sums::{
    lemma_sum_add, lemma_sum_le, lemma_sum_non_negative, lemma_sum_scale, lemma_sum_take, sum,
};
use crate::wide::{Integer, Natural};

verus! {

/// The floor of a proportional share.
pub open spec fn share(amount: int, weight: int, whole: int) -> int {
    amount * weight / whole
}

/// What the floor leaves of a proportional share, in units of `1 / whole`.
pub open spec fn remainder(amount: int, weight: int, whole: int) -> int {
    amount * weight % whole
}

/// The floors of all the proportional shares.
pub open spec fn shares(amount: int, weights: Seq<int>) -> Seq<int> {
    weights.map_values(|weight: int| share(amount, weight, sum(weights)))
}

/// The remainders of all the proportional shares.
pub open spec fn remainders(amount: int, weights: Seq<int>) -> Seq<int> {
    weights.map_values(|weight: int| remainder(amount, weight, sum(weights)))
}

/// Whether recipient `j` is ahead of recipient `i` for a leftover unit.
pub open spec fn ahead(left: Seq<int>, j: int, i: int) -> bool {
    left[j] > left[i] || (left[j] == left[i] && j < i)
}

/// The recipients among the first `upto` that are ahead of recipient `i`.
pub open spec fn all_ahead(left: Seq<int>, upto: int, i: int) -> Set<int> {
    set_int_range(0, upto).filter(|j: int| ahead(left, j, i))
}

/// How many recipients are ahead of recipient `i`.
pub open spec fn rank(left: Seq<int>, i: int) -> int {
    all_ahead(left, left.len() as int, i).len() as int
}

/// Units that the floors of the shares leave over.
pub open spec fn leftover(amount: int, weights: Seq<int>) -> int {
    amount - sum(shares(amount, weights))
}

/// The part of a non-negative amount that recipient `i` gets.
pub open spec fn unsigned_part(amount: int, weights: Seq<int>, i: int) -> int {
    share(amount, weights[i], sum(weights)) + if rank(remainders(amount, weights), i) < leftover(
        amount,
        weights,
    ) {
        1int
    } else {
        0int
    }
}

/// Weights that are all one.
pub open spec fn even_weights(n: nat) -> Seq<int> {
    Seq::new(n, |i: int| 1int)
}

/// Weights that may be used: none of them negative.
pub open spec fn non_negative(weights: Seq<int>) -> bool {
    forall|i: int| 0 <= i < weights.len() ==> #[trigger] weights[i] >= 0
}

/// The weights that a split goes by: as given, or all equal when none is positive.
pub open spec fn effective(weights: Seq<int>) -> Seq<int> {
    if sum(weights) == 0 {
        even_weights(weights.len())
    } else {
        weights
    }
}

/// The parts of an amount, in the order of the weights.
pub open spec fn parts_of(amount: int, weights: Seq<int>) -> Seq<int> {
    Seq::new(
        weights.len(),
        |i: int|
            if amount < 0 {
                -unsigned_part(-amount, effective(weights), i)
            } else {
                unsigned_part(amount, effective(weights), i)
            },
    )
}

/// Integer parts as amounts of a currency.
pub open spec fn amounts_of(parts: Seq<int>, currency: Currency) -> Seq<Money> {
    parts.map_values(|part: int| Money { minor: part as i64, currency })
}

/// What splitting an amount by weights gives.
pub open spec fn allocation(amount: Money, weights: Seq<int>) -> Result<Seq<Money>, ErrorView> {
    if weights.len() == 0 {
        if amount.minor == 0 {
            Ok(Seq::empty())
        } else {
            Err(
                ErrorView::Allocation(
                    "cannot allocate a non-zero amount to zero recipients"@,
                ),
            )
        }
    } else if !non_negative(weights) {
        Err(ErrorView::Allocation("allocation weights must be non-negative"@))
    } else {
        Ok(amounts_of(parts_of(amount.minor as int, weights), amount.currency))
    }
}

/// A list result, as a sequence and with the texts of its error.
pub open spec fn list_outcome<T>(result: Result<Vec<T>, Error>) -> Result<Seq<T>, ErrorView> {
    match result {
        Ok(list) => Ok(list@),
        Err(error) => Err(error@),
    }
}

/// Signed 64-bit weights as integers.
pub open spec fn as_ints(weights: Seq<i64>) -> Seq<int> {
    weights.map_values(|weight: i64| weight as int)
}

proof fn lemma_remainder_bounds(amount: int, weights: Seq<int>)
    requires
        sum(weights) > 0,
    ensures
        remainders(amount, weights).len() == weights.len(),
        forall|i: int|
            0 <= i < weights.len() ==> 0 <= #[trigger] remainders(amount, weights)[i] < sum(
                weights,
            ),
{
    assert forall|i: int| 0 <= i < weights.len() implies 0 <= #[trigger] remainders(
        amount,
        weights,
    )[i] < sum(weights) by {
        lemma_mod_bound(amount * weights[i], sum(weights));
    }
}

/// The remainders add up to the leftover units.
proof fn lemma_leftover(amount: int, weights: Seq<int>)
    requires
        sum(weights) > 0,
    ensures
        leftover(amount, weights) * sum(weights) == sum(remainders(amount, weights)),
        weights.len() > 0 ==> 0 <= leftover(amount, weights) < weights.len(),
{
    let whole = sum(weights);
    let floors = shares(amount, weights);
    let left = remainders(amount, weights);
    let exact = weights.map_values(|weight: int| amount * weight);
    let scaled = floors.map_values(|floor: int| whole * floor);
    assert forall|i: int| 0 <= i < weights.len() implies #[trigger] exact[i] == scaled[i]
        + left[i] by {
        lemma_fundamental_div_mod(amount * weights[i], whole);
    }
    lemma_sum_add(scaled, left, exact);
    lemma_sum_scale(weights, exact, amount);
    lemma_sum_scale(floors, scaled, whole);
    let l = leftover(amount, weights);
    assert(l * whole == amount * whole - whole * sum(floors)) by (nonlinear_arith)
        requires
            l == amount - sum(floors),
    ;
    if weights.len() > 0 {
        lemma_remainder_bounds(amount, weights);
        lemma_sum_non_negative(left);
        let top = Seq::new(weights.len(), |i: int| whole - 1);
        lemma_sum_le(left, top);
        let ones = even_weights(weights.len());
        lemma_sum_scale(ones, top, whole - 1);
        lemma_sum_ones(weights.len());
        let n = weights.len() as int;
        assert(0 <= l < n) by (nonlinear_arith)
            requires
                l * whole >= 0,
                l * whole <= (whole - 1) * n,
                whole > 0,
                n > 0,
        ;
    }
}

proof fn lemma_sum_ones(n: nat)
    ensures
        sum(even_weights(n)) == n,
    decreases n,
{
    if n > 0 {
        assert(even_weights(n).drop_last() =~= even_weights((n - 1) as nat));
        lemma_sum_ones((n - 1) as nat);
    }
}

proof fn lemma_ahead_finite(left: Seq<int>, upto: int, i: int)
    requires
        0 <= upto,
    ensures
        all_ahead(left, upto, i).finite(),
        all_ahead(left, upto, i).len() <= upto,
        all_ahead(left, upto, i).subset_of(set_int_range(0, upto)),
{
    lemma_int_range(0, upto);
    lemma_len_subset(all_ahead(left, upto, i), set_int_range(0, upto));
}

/// The recipients of rank below `k`.
spec fn winners(left: Seq<int>, k: int) -> Set<int> {
    set_int_range(0, left.len() as int).filter(|i: int| rank(left, i) < k)
}

/// A recipient outside `taken` that is ahead of every other such recipient among
/// the first `upto`.
proof fn lemma_best(left: Seq<int>, taken: Set<int>, upto: int) -> (best: int)
    requires
        0 < upto <= left.len(),
        exists|i: int| 0 <= i < upto && !taken.contains(i),
    ensures
        0 <= best < upto,
        !taken.contains(best),
        forall|i: int| 0 <= i < upto && !taken.contains(i) && i != best
            ==> #[trigger] ahead(left, best, i),
    decreases upto,
{
    let last = upto - 1;
    if exists|i: int| 0 <= i < last && !taken.contains(i) {
        let before = lemma_best(left, taken, last);
        if !taken.contains(last) && left[last] > left[before] {
            assert forall|i: int|
                0 <= i < upto && !taken.contains(i) && i != last implies #[trigger] ahead(
                left,
                last,
                i,
            ) by {
                if i != before {
                    assert(ahead(left, before, i));
                }
            }
            last
        } else {
            before
        }
    } else {
        last
    }
}

/// Exactly `k` recipients have a rank below `k`.
proof fn lemma_winners(left: Seq<int>, k: int)
    requires
        0 <= k <= left.len(),
    ensures
        winners(left, k).finite(),
        winners(left, k).len() == k,
    decreases k,
{
    let n = left.len() as int;
    lemma_int_range(0, n);
    if k == 0 {
        assert forall|i: int| !winners(left, 0).contains(i) by {
            if 0 <= i < n {
                lemma_ahead_finite(left, n, i);
            }
        }
        assert(winners(left, 0) =~= Set::<int>::empty());
    } else {
        let fewer = winners(left, k - 1);
        lemma_winners(left, k - 1);
        assert(exists|i: int| 0 <= i < n && !fewer.contains(i)) by {
            if forall|i: int| 0 <= i < n ==> fewer.contains(i) {
                assert(fewer =~= set_int_range(0, n));
            }
        }
        let best = lemma_best(left, fewer, n);
        let front = all_ahead(left, n, best);
        lemma_ahead_finite(left, n, best);
        assert(front =~= fewer) by {
            assert forall|j: int| fewer.contains(j) implies front.contains(j) by {
                if !ahead(left, j, best) {
                    assert(front.subset_of(all_ahead(left, n, j)));
                    lemma_ahead_finite(left, n, j);
                    lemma_len_subset(front, all_ahead(left, n, j));
                }
            }
            assert forall|j: int| front.contains(j) implies fewer.contains(j) by {
                if !fewer.contains(j) && j != best {
                    assert(ahead(left, best, j));
                }
            }
        }
        assert forall|i: int| winners(left, k).contains(i) == #[trigger] fewer.insert(
            best,
        ).contains(i) by {
            if 0 <= i < n && !fewer.contains(i) && i != best {
                assert(ahead(left, best, i));
                let front_i = all_ahead(left, n, i);
                lemma_ahead_finite(left, n, i);
                assert(front.insert(best).subset_of(front_i));
                lemma_len_subset(front.insert(best), front_i);
            }
        }
        assert(winners(left, k) =~= fewer.insert(best));
    }
}

spec fn indicator(set: Set<int>, n: nat) -> Seq<int> {
    Seq::new(
        n,
        |i: int|
            if set.contains(i) {
                1int
            } else {
                0int
            },
    )
}

proof fn lemma_sum_indicator(set: Set<int>, n: nat)
    requires
        set.subset_of(set_int_range(0, n as int)),
    ensures
        set.finite(),
        sum(indicator(set, n)) == set.len(),
    decreases n,
{
    lemma_int_range(0, n as int);
    lemma_len_subset(set, set_int_range(0, n as int));
    if n == 0 {
        assert(set =~= Set::<int>::empty());
    } else {
        let last = n - 1;
        let rest = set.remove(last);
        lemma_sum_indicator(rest, last as nat);
        assert(indicator(set, n).drop_last() =~= indicator(rest, last as nat));
        if !set.contains(last) {
            assert(rest =~= set);
        }
    }
}

/// The unsigned parts as a sequence.
spec fn unsigned_parts(amount: int, weights: Seq<int>) -> Seq<int> {
    Seq::new(weights.len(), |i: int| unsigned_part(amount, weights, i))
}

proof fn lemma_unsigned_parts(amount: int, weights: Seq<int>)
    requires
        amount >= 0,
        weights.len() > 0,
        non_negative(weights),
        sum(weights) > 0,
    ensures
        sum(unsigned_parts(amount, weights)) == amount,
        forall|i: int|
            0 <= i < weights.len() ==> 0 <= #[trigger] unsigned_part(amount, weights, i) <= amount,
{
    let n = weights.len();
    let left = remainders(amount, weights);
    let l = leftover(amount, weights);
    lemma_leftover(amount, weights);
    lemma_winners(left, l);
    let extra = indicator(winners(left, l), n);
    lemma_sum_indicator(winners(left, l), n);
    lemma_sum_add(shares(amount, weights), extra, unsigned_parts(amount, weights));
    assert forall|i: int| 0 <= i < n implies #[trigger] unsigned_parts(amount, weights)[i]
        >= 0 by {
        assert(weights[i] >= 0);
        assert(amount * weights[i] >= 0) by (nonlinear_arith)
            requires
                amount >= 0,
                weights[i] >= 0,
        ;
        lemma_fundamental_div_mod(amount * weights[i], sum(weights));
        lemma_mod_bound(amount * weights[i], sum(weights));
        let q = amount * weights[i] / sum(weights);
        let r = amount * weights[i] % sum(weights);
        assert(q >= 0) by (nonlinear_arith)
            requires
                amount * weights[i] == sum(weights) * q + r,
                amount * weights[i] >= 0,
                r < sum(weights),
                sum(weights) > 0,
        ;
    }
    lemma_sum_non_negative(unsigned_parts(amount, weights));
    assert forall|i: int| 0 <= i < n implies 0 <= #[trigger] unsigned_part(amount, weights, i)
        <= amount by {
        assert(unsigned_parts(amount, weights)[i] == unsigned_part(amount, weights, i));
    }
}

proof fn lemma_effective(weights: Seq<int>)
    requires
        weights.len() > 0,
        non_negative(weights),
    ensures
        effective(weights).len() == weights.len(),
        non_negative(effective(weights)),
        sum(effective(weights)) > 0,
{
    lemma_sum_ones(weights.len());
    lemma_sum_non_negative(weights);
}

/// The parts of a split sum exactly to the amount that was split. Each has the
/// sign of the amount and is no larger.
pub proof fn law_parts_sum_to_the_whole(amount: int, weights: Seq<int>)
    requires
        weights.len() > 0,
        non_negative(weights),
    ensures
        parts_of(amount, weights).len() == weights.len(),
        sum(parts_of(amount, weights)) == amount,
        forall|i: int|
            0 <= i < weights.len() ==> {
                &&& amount >= 0 ==> 0 <= #[trigger] parts_of(amount, weights)[i] <= amount
                &&& amount <= 0 ==> amount <= parts_of(amount, weights)[i] <= 0
            },
{
    let used = effective(weights);
    lemma_effective(weights);
    let size = if amount < 0 {
        -amount
    } else {
        amount
    };
    lemma_unsigned_parts(size, used);
    let plain = unsigned_parts(size, used);
    let parts = parts_of(amount, weights);
    if amount < 0 {
        assert forall|i: int| 0 <= i < plain.len() implies #[trigger] parts[i] == (-1) * plain[i] by {
            assert(parts[i] == -unsigned_part(size, used, i));
        }
        lemma_sum_scale(plain, parts, -1);
    } else {
        assert(parts =~= plain);
    }
    assert forall|i: int| 0 <= i < weights.len() implies {
        &&& amount >= 0 ==> 0 <= #[trigger] parts[i] <= amount
        &&& amount <= 0 ==> amount <= parts[i] <= 0
    } by {
        assert(0 <= unsigned_part(size, used, i) <= size);
    }
}

/// A split succeeds for every list of non-negative weights that is not empty, and
/// for an empty list when there is nothing to split.
pub proof fn law_allocation_succeeds(amount: Money, weights: Seq<int>)
    requires
        non_negative(weights),
        weights.len() > 0 || amount.minor == 0,
    ensures
        allocation(amount, weights) matches Ok(parts) && {
            &&& parts.len() == weights.len()
            &&& sum(minors(parts)) == amount.minor
            &&& all_in(parts, amount.currency)
        },
{
    if weights.len() > 0 {
        law_parts_sum_to_the_whole(amount.minor as int, weights);
        let plain = parts_of(amount.minor as int, weights);
        let parts = amounts_of(plain, amount.currency);
        assert forall|i: int| 0 <= i < plain.len() implies #[trigger] minors(parts)[i]
            == plain[i] by {
            assert(i64::MIN <= plain[i] <= i64::MAX);
        }
        assert(minors(parts) =~= plain);
    } else {
        assert(minors(Seq::<Money>::empty()) =~= Seq::<int>::empty());
    }
}

proof fn lemma_even_share_gets_no_extra(size: int, weights: Seq<int>, i: int)
    requires
        size >= 0,
        non_negative(weights),
        sum(weights) > 0,
        0 <= i < weights.len(),
        remainder(size, weights[i], sum(weights)) == 0,
    ensures
        unsigned_part(size, weights, i) == share(size, weights[i], sum(weights)),
{
    let whole = sum(weights);
    let left = remainders(size, weights);
    let n = weights.len() as int;
    assert(left[i] == 0);
    lemma_leftover(size, weights);
    lemma_remainder_bounds(size, weights);
    let front = all_ahead(left, n, i);
    lemma_ahead_finite(left, n, i);
    lemma_sum_indicator(front, n as nat);
    let marks = indicator(front, n as nat);
    let cover = marks.map_values(|mark: int| whole * mark);
    assert forall|j: int| 0 <= j < n implies #[trigger] left[j] <= cover[j] by {
        assert(0 <= left[j] < whole);
        if left[j] > 0 {
            assert(front.contains(j));
            assert(whole * 1 == whole) by (nonlinear_arith);
        } else if front.contains(j) {
            assert(whole * 1 == whole) by (nonlinear_arith);
        } else {
            assert(whole * 0 == 0) by (nonlinear_arith);
        }
    }
    lemma_sum_le(left, cover);
    lemma_sum_scale(marks, cover, whole);
    let l = leftover(size, weights);
    let f = front.len() as int;
    assert(l <= f) by (nonlinear_arith)
        requires
            l * whole <= whole * f,
            whole > 0,
    ;
}

/// A zero weight receives zero unless all weights are zero.
pub proof fn law_zero_weight_receives_nothing(amount: int, weights: Seq<int>, i: int)
    requires
        non_negative(weights),
        sum(weights) != 0,
        0 <= i < weights.len(),
        weights[i] == 0,
    ensures
        parts_of(amount, weights)[i] == 0,
{
    let size = if amount < 0 {
        -amount
    } else {
        amount
    };
    lemma_sum_non_negative(weights);
    assert(size * 0 == 0) by (nonlinear_arith);
    lemma_fundamental_div_mod_converse(0, sum(weights), 0, 0);
    lemma_even_share_gets_no_extra(size, weights, i);
}

/// Recipients of equal weight get parts that differ by at most one unit; so do all
/// recipients of an even split.
pub proof fn law_equal_weights_differ_by_at_most_one(amount: int, weights: Seq<int>, i: int, j: int)
    requires
        0 <= i < weights.len(),
        0 <= j < weights.len(),
        weights[i] == weights[j] || sum(weights) == 0,
    ensures
        -1 <= parts_of(amount, weights)[i] - parts_of(amount, weights)[j] <= 1,
{
}

/// Splitting a refund mirrors splitting the charge.
pub proof fn law_negative_amounts_split_symmetrically(amount: int, weights: Seq<int>, i: int)
    requires
        non_negative(weights),
        0 <= i < weights.len(),
    ensures
        parts_of(-amount, weights)[i] == -parts_of(amount, weights)[i],
{
    if amount == 0 {
        law_parts_sum_to_the_whole(0, weights);
    }
}

/// Each part is less than one unit away from its exact proportional share.
pub proof fn law_parts_are_proportional(amount: int, weights: Seq<int>, i: int)
    requires
        non_negative(weights),
        sum(weights) > 0,
        0 <= i < weights.len(),
    ensures
        -sum(weights) < parts_of(amount, weights)[i] * sum(weights) - amount * weights[i] < sum(
            weights,
        ),
{
    let whole = sum(weights);
    let weight = weights[i];
    let size = if amount < 0 {
        -amount
    } else {
        amount
    };
    lemma_fundamental_div_mod(size * weight, whole);
    lemma_mod_bound(size * weight, whole);
    let q = share(size, weight, whole);
    let p = unsigned_part(size, weights, i);
    if remainder(size, weight, whole) == 0 {
        lemma_even_share_gets_no_extra(size, weights, i);
    }
    assert(whole * q == q * whole) by (nonlinear_arith);
    assert((q + 1) * whole == q * whole + whole) by (nonlinear_arith);
    assert((-p) * whole == -(p * whole)) by (nonlinear_arith);
    assert((-size) * weight == -(size * weight)) by (nonlinear_arith);
}

/// No part of an amount that is no larger than the weights together is larger than its
/// own weight.
pub proof fn law_parts_stay_within_their_weights(amount: int, weights: Seq<int>, i: int)
    requires
        non_negative(weights),
        0 <= amount <= sum(weights),
        0 <= i < weights.len(),
    ensures
        0 <= parts_of(amount, weights)[i] <= weights[i],
{
    let whole = sum(weights);
    let weight = weights[i];
    law_parts_sum_to_the_whole(amount, weights);
    if whole == 0 || amount == 0 {
        assert(parts_of(amount, weights)[i] <= amount);
    } else if weight == 0 {
        law_zero_weight_receives_nothing(amount, weights, i);
    } else {
        let q = share(amount, weight, whole);
        let r = remainder(amount, weight, whole);
        lemma_fundamental_div_mod(amount * weight, whole);
        lemma_mod_bound(amount * weight, whole);
        if amount < whole {
            assert(q < weight) by (nonlinear_arith)
                requires
                    amount * weight == whole * q + r,
                    r >= 0,
                    0 < amount < whole,
                    weight > 0,
            ;
        } else {
            assert forall|j: int| 0 <= j < weights.len() implies #[trigger] shares(
                amount,
                weights,
            )[j] == weights[j] by {
                assert(amount * weights[j] == weights[j] * whole + 0) by (nonlinear_arith)
                    requires
                        amount == whole,
                ;
                lemma_fundamental_div_mod_converse(amount * weights[j], whole, weights[j], 0);
            }
            assert(shares(amount, weights) =~= weights);
            assert(shares(amount, weights)[i] == weight);
            assert(leftover(amount, weights) == 0);
        }
    }
}

fn split(amount: i64, weights: &Vec<i64>, whole: i128) -> (parts: Vec<i64>)
    requires
        weights@.len() > 0,
        non_negative(as_ints(weights@)),
        whole == sum(as_ints(weights@)),
        whole > 0,
    ensures
        parts@.len() == weights@.len(),
        forall|i: int|
            0 <= i < parts@.len() ==> #[trigger] parts@[i] == if amount < 0 {
                -unsigned_part(-amount, as_ints(weights@), i)
            } else {
                unsigned_part(amount as int, as_ints(weights@), i)
            },
{
    let ghost plain = as_ints(weights@);
    let n: usize = weights.len();
    // Work on the magnitude so flooring behaves symmetrically for refunds
    // (negative amounts) and charges (positive amounts).
    let size: i128 = if amount < 0 {
        -(amount as i128)
    } else {
        amount as i128
    };
    proof {
        lemma_unsigned_parts(size as int, plain);
        lemma_leftover(size as int, plain);
        lemma_remainder_bounds(size as int, plain);
    }
    let mut floors: Vec<i128> = Vec::new();
    let mut left: Vec<i128> = Vec::new();
    let mut distributed: i128 = 0;
    let mut i: usize = 0;
    let ghost all_floors = shares(size as int, plain);
    let ghost all_left = remainders(size as int, plain);
    proof {
        assert forall|k: int| 0 <= k < n implies 0 <= #[trigger] all_floors[k] by {
            lemma_share_bounds(size as int, plain, k);
        }
        lemma_sum_non_negative(all_floors);
    }
    while i < n
        invariant
            n == weights@.len(),
            plain == as_ints(weights@),
            non_negative(plain),
            whole == sum(plain),
            whole > 0,
            0 <= size <= 0x8000_0000_0000_0000,
            all_floors == shares(size as int, plain),
            all_left == remainders(size as int, plain),
            sum(all_floors) <= size,
            forall|k: int| 0 <= k < n ==> 0 <= #[trigger] all_floors[k],
            i <= n,
            floors@.len() == i,
            left@.len() == i,
            forall|k: int| 0 <= k < i ==> #[trigger] floors@[k] == all_floors[k],
            forall|k: int| 0 <= k < i ==> #[trigger] left@[k] == all_left[k],
            distributed == sum(all_floors.take(i as int)),
            0 <= distributed <= size,
        decreases n - i,
    {
        let weight: i128 = weights[i] as i128;
        proof {
            assert(plain[i as int] == weight);
            assert(0 <= size * weight <= 0x4000_0000_0000_0000_0000_0000_0000_0000)
                by (nonlinear_arith)
                requires
                    0 <= size <= 0x8000_0000_0000_0000,
                    0 <= weight <= 0x7fff_ffff_ffff_ffff,
            ;
            lemma_share_bounds(size as int, plain, i as int);
            lemma_mod_bound(size * weight, whole as int);
            lemma_sum_take(all_floors, i as int);
            crate::sums::lemma_sum_prefix(all_floors, i + 1);
        }
        let numerator: i128 = size * weight;
        let floor: i128 = numerator.checked_div_euclid(whole).unwrap();
        let rest: i128 = numerator.checked_rem_euclid(whole).unwrap();
        assert(floor == all_floors[i as int]);
        assert(rest == all_left[i as int]);
        distributed = distributed + floor;
        floors.push(floor);
        left.push(rest);
        i += 1;
    }
    assert(all_floors.take(n as int) =~= all_floors);
    let spare: i128 = size - distributed;
    let mut places: Vec<usize> = Vec::new();
    let mut r: usize = 0;
    assert(left@.map_values(|x: i128| x as int) =~= all_left);
    while r < n
        invariant
            n == left@.len(),
            left@.map_values(|x: i128| x as int) == all_left,
            r <= n,
            places@.len() == r,
            forall|k: int| 0 <= k < r ==> #[trigger] places@[k] == rank(all_left, k),
        decreases n - r,
    {
        places.push(count_ahead(&left, r));
        r += 1;
    }
    hand_out(amount, &floors, &places, spare, Ghost(plain))
}

/// Hand the leftover units to the largest remainders first.
fn hand_out(
    amount: i64,
    floors: &Vec<i128>,
    places: &Vec<usize>,
    spare: i128,
    Ghost(weights): Ghost<Seq<int>>,
) -> (parts: Vec<i64>)
    requires
        non_negative(weights),
        sum(weights) > 0,
        floors@.len() == weights.len(),
        places@.len() == weights.len(),
        ({
            let size = if amount < 0 {
                -amount
            } else {
                amount as int
            };
            &&& forall|k: int|
                0 <= k < weights.len() ==> #[trigger] floors@[k] == shares(size, weights)[k]
            &&& forall|k: int|
                0 <= k < weights.len() ==> #[trigger] places@[k] == rank(
                    remainders(size, weights),
                    k,
                )
            &&& spare == leftover(size, weights)
        }),
    ensures
        parts@.len() == weights.len(),
        forall|i: int|
            0 <= i < parts@.len() ==> #[trigger] parts@[i] == if amount < 0 {
                -unsigned_part(-amount, weights, i)
            } else {
                unsigned_part(amount as int, weights, i)
            },
{
    let n: usize = floors.len();
    let ghost size = if amount < 0 {
        -amount
    } else {
        amount as int
    };
    proof {
        lemma_unsigned_parts(size, weights);
    }
    let mut parts: Vec<i64> = Vec::new();
    let mut r: usize = 0;
    while r < n
        invariant
            n == weights.len(),
            floors@.len() == n,
            places@.len() == n,
            size == if amount < 0 {
                -amount
            } else {
                amount as int
            },
            forall|k: int|
                0 <= k < n ==> #[trigger] floors@[k] == shares(size, weights)[k],
            forall|k: int|
                0 <= k < n ==> #[trigger] places@[k] == rank(remainders(size, weights), k),
            spare == leftover(size, weights),
            forall|k: int| 0 <= k < n ==> 0 <= #[trigger] unsigned_part(size, weights, k) <= size,
            r <= n,
            parts@.len() == r,
            forall|k: int|
                0 <= k < r ==> #[trigger] parts@[k] == if amount < 0 {
                    -unsigned_part(size, weights, k)
                } else {
                    unsigned_part(size, weights, k)
                },
        decreases n - r,
    {
        assert(0 <= unsigned_part(size, weights, r as int) <= size);
        let base: i128 = floors[r];
        let place: usize = places[r];
        assert(base == shares(size, weights)[r as int]);
        assert(base + 1 == unsigned_part(size, weights, r as int) || base == unsigned_part(
            size,
            weights,
            r as int,
        ));
        let part: i128 = if (place as i128) < spare {
            base + 1
        } else {
            base
        };
        if amount < 0 {
            parts.push((-part) as i64);
        } else {
            parts.push(part as i64);
        }
        r += 1;
    }
    parts
}

/// Weights of any size as integers.
pub open spec fn wide_ints(weights: Seq<Integer>) -> Seq<int> {
    weights.map_values(|weight: Integer| weight@)
}

spec fn sizes(numbers: Seq<Natural>) -> Seq<int> {
    numbers.map_values(|number: Natural| number@)
}

fn count_larger(left: &Vec<Natural>, i: usize) -> (count: usize)
    requires
        i < left@.len(),
    ensures
        count == rank(sizes(left@), i as int),
{
    let ghost plain = sizes(left@);
    let mut count: usize = 0;
    let mut j: usize = 0;
    proof {
        assert(all_ahead(plain, 0, i as int) =~= Set::<int>::empty());
    }
    while j < left.len()
        invariant
            i < left@.len(),
            j <= left@.len(),
            plain == sizes(left@),
            count <= j,
            count == all_ahead(plain, j as int, i as int).len(),
        decreases left@.len() - j,
    {
        proof {
            lemma_ahead_finite(plain, j as int, i as int);
            assert(plain[i as int] == left@[i as int]@);
            assert(plain[j as int] == left@[j as int]@);
        }
        if left[i].less(&left[j]) || (!left[j].less(&left[i]) && j < i) {
            assert(all_ahead(plain, j + 1, i as int) =~= all_ahead(plain, j as int, i as int).insert(
                j as int,
            ));
            count += 1;
        } else {
            assert(all_ahead(plain, j + 1, i as int) =~= all_ahead(plain, j as int, i as int));
        }
        j += 1;
    }
    count
}

fn split_widely(amount: i64, weights: &Vec<Integer>, whole: &Natural) -> (parts: Vec<i64>)
    requires
        weights@.len() > 0,
        non_negative(wide_ints(weights@)),
        whole@ == sum(wide_ints(weights@)),
        whole@ > 0,
    ensures
        parts@.len() == weights@.len(),
        forall|i: int|
            0 <= i < parts@.len() ==> #[trigger] parts@[i] == if amount < 0 {
                -unsigned_part(-amount, wide_ints(weights@), i)
            } else {
                unsigned_part(amount as int, wide_ints(weights@), i)
            },
{
    let ghost plain = wide_ints(weights@);
    let n: usize = weights.len();
    let size: u64 = if amount < 0 {
        (-(amount as i128)) as u64
    } else {
        amount as u64
    };
    let ghost all_floors = shares(size as int, plain);
    let ghost all_left = remainders(size as int, plain);
    proof {
        lemma_unsigned_parts(size as int, plain);
        lemma_leftover(size as int, plain);
        assert forall|k: int| 0 <= k < n implies 0 <= #[trigger] all_floors[k] by {
            lemma_share_bounds(size as int, plain, k);
        }
        lemma_sum_non_negative(all_floors);
    }
    let mut floors: Vec<i128> = Vec::new();
    let mut left: Vec<Natural> = Vec::new();
    let mut distributed: i128 = 0;
    let mut i: usize = 0;
    while i < n
        invariant
            n == weights@.len(),
            plain == wide_ints(weights@),
            non_negative(plain),
            whole@ == sum(plain),
            whole@ > 0,
            size <= 0x8000_0000_0000_0000,
            all_floors == shares(size as int, plain),
            all_left == remainders(size as int, plain),
            sum(all_floors) <= size,
            forall|k: int| 0 <= k < n ==> 0 <= #[trigger] all_floors[k],
            i <= n,
            floors@.len() == i,
            left@.len() == i,
            forall|k: int| 0 <= k < i ==> #[trigger] floors@[k] == all_floors[k],
            forall|k: int| 0 <= k < i ==> (#[trigger] left@[k])@ == all_left[k],
            distributed == sum(all_floors.take(i as int)),
            0 <= distributed <= size,
        decreases n - i,
    {
        let product = weights[i].size().times(size);
        proof {
            let weight = plain[i as int];
            assert(weight == weights@[i as int]@);
            assert(weight >= 0);
            assert(weight * size == size * weight) by (nonlinear_arith);
            lemma_share_bounds(size as int, plain, i as int);
            lemma_sum_take(all_floors, i as int);
            crate::sums::lemma_sum_prefix(all_floors, i + 1);
            lemma_fundamental_div_mod(size * weight, whole@);
            lemma_mod_bound(size * weight, whole@);
            let q = share(size as int, weight, whole@);
            assert(size * weight < 0x1_0000_0000_0000_0000 * whole@) by (nonlinear_arith)
                requires
                    size * weight == whole@ * q + remainder(size as int, weight, whole@),
                    remainder(size as int, weight, whole@) < whole@,
                    q <= 0x8000_0000_0000_0000,
                    whole@ > 0,
            ;
        }
        if let Some((floor, rest)) = product.divided_by(whole) {
            assert(floor == all_floors[i as int]);
            distributed = distributed + floor as i128;
            floors.push(floor as i128);
            left.push(rest);
        }
        i += 1;
    }
    assert(all_floors.take(n as int) =~= all_floors);
    let spare: i128 = size as i128 - distributed;
    let mut places: Vec<usize> = Vec::new();
    let mut r: usize = 0;
    assert(sizes(left@) =~= all_left);
    while r < n
        invariant
            n == left@.len(),
            sizes(left@) == all_left,
            r <= n,
            places@.len() == r,
            forall|k: int| 0 <= k < r ==> #[trigger] places@[k] == rank(all_left, k),
        decreases n - r,
    {
        places.push(count_larger(&left, r));
        r += 1;
    }
    hand_out(amount, &floors, &places, spare, Ghost(plain))
}

proof fn lemma_share_bounds(size: int, weights: Seq<int>, k: int)
    requires
        size >= 0,
        non_negative(weights),
        sum(weights) > 0,
        0 <= k < weights.len(),
    ensures
        0 <= share(size, weights[k], sum(weights)) <= size,
        size * weights[k] >= 0,
{
    let whole = sum(weights);
    let w = weights[k];
    lemma_sum_non_negative(weights);
    assert(0 <= w <= whole);
    lemma_fundamental_div_mod(size * w, whole);
    lemma_mod_bound(size * w, whole);
    let q = size * w / whole;
    let r = size * w % whole;
    assert(0 <= q <= size && size * w >= 0) by (nonlinear_arith)
        requires
            size * w == whole * q + r,
            0 <= r < whole,
            0 <= w <= whole,
            size >= 0,
            whole > 0,
    ;
}

fn count_ahead(left: &Vec<i128>, i: usize) -> (count: usize)
    requires
        i < left@.len(),
    ensures
        count == rank(left@.map_values(|x: i128| x as int), i as int),
{
    let ghost plain = left@.map_values(|x: i128| x as int);
    let mut count: usize = 0;
    let mut j: usize = 0;
    proof {
        assert(all_ahead(plain, 0, i as int) =~= Set::<int>::empty());
    }
    while j < left.len()
        invariant
            i < left@.len(),
            j <= left@.len(),
            plain == left@.map_values(|x: i128| x as int),
            count <= j,
            count == all_ahead(plain, j as int, i as int).len(),
        decreases left@.len() - j,
    {
        proof {
            lemma_ahead_finite(plain, j as int, i as int);
        }
        if left[j] > left[i] || (left[j] == left[i] && j < i) {
            assert(all_ahead(plain, j + 1, i as int) =~= all_ahead(plain, j as int, i as int).insert(
                j as int,
            ));
            count += 1;
        } else {
            assert(all_ahead(plain, j + 1, i as int) =~= all_ahead(plain, j as int, i as int));
        }
        j += 1;
    }
    count
}

fn to_amounts(parts: &Vec<i64>, currency: Currency) -> (amounts: Vec<Money>)
    ensures
        amounts@.len() == parts@.len(),
        forall|i: int|
            0 <= i < parts@.len() ==> #[trigger] amounts@[i] == (Money {
                minor: parts@[i],
                currency,
            }),
{
    let mut amounts: Vec<Money> = Vec::new();
    let mut i: usize = 0;
    while i < parts.len()
        invariant
            i <= parts@.len(),
            amounts@.len() == i,
            forall|k: int|
                0 <= k < i ==> #[trigger] amounts@[k] == (Money { minor: parts@[k], currency }),
        decreases parts@.len() - i,
    {
        amounts.push(Money { minor: parts[i], currency });
        i += 1;
    }
    amounts
}

/// Split `total` proportionally to `weights`.
///
/// * Returns one [`Money`] per weight, in the same order.
/// * The parts sum to `total`.
/// * Negative weights are rejected; a zero weight receives zero unless all
///   weights are zero, in which case the total is split as evenly as possible.
pub fn allocate(total: Money, weights: &[i64]) -> (parts: Result<Vec<Money>, Error>)
    ensures
        list_outcome(parts) == allocation(total, as_ints(weights@)),
{
    let ghost plain = as_ints(weights@);
    if weights.len() == 0 {
        return if total.is_zero() {
            let none: Vec<Money> = Vec::new();
            Ok(none)
        } else {
            Err(Error::allocation("cannot allocate a non-zero amount to zero recipients"))
        };
    }
    let mut list: Vec<i64> = Vec::new();
    let mut whole: i128 = 0;
    let mut i: usize = 0;
    assert(plain.take(0) =~= Seq::<int>::empty());
    while i < weights.len()
        invariant
            plain == as_ints(weights@),
            i <= weights@.len(),
            weights@.len() <= usize::MAX,
            list@ == weights@.take(i as int),
            whole == sum(plain.take(i as int)),
            0 <= whole <= i * 0x7fff_ffff_ffff_ffff,
            forall|k: int| 0 <= k < i ==> #[trigger] plain[k] >= 0,
        decreases weights@.len() - i,
    {
        let weight: i64 = weights[i];
        assert(plain[i as int] == weight);
        if weight < 0 {
            return Err(Error::allocation("allocation weights must be non-negative"));
        }
        proof {
            lemma_sum_take(plain, i as int);
        }
        assert(whole + weight <= 0x7fff_ffff_ffff_ffff_ffff_ffff_ffff_ffff) by (nonlinear_arith)
            requires
                whole <= i * 0x7fff_ffff_ffff_ffff,
                0 <= i < 0xffff_ffff_ffff_ffff,
                weight <= 0x7fff_ffff_ffff_ffff,
        ;
        whole = whole + weight as i128;
        list.push(weight);
        i += 1;
        assert(list@ =~= weights@.take(i as int));
    }
    assert(plain.take(i as int) =~= plain);
    assert(list@ =~= weights@);
    if whole == 0 {
        return allocate_evenly(total, weights.len());
    }
    let parts = split(total.minor, &list, whole);
    let amounts = to_amounts(&parts, total.currency);
    assert(amounts@ =~= amounts_of(parts_of(total.minor as int, plain), total.currency));
    Ok(amounts)
}

/// Split `total` proportionally to weights of any size, as [`allocate`] does by machine
/// integers.
pub fn allocate_widely(total: Money, weights: &Vec<Integer>) -> (parts: Result<Vec<Money>, Error>)
    ensures
        list_outcome(parts) == allocation(total, wide_ints(weights@)),
{
    let ghost plain = wide_ints(weights@);
    if weights.len() == 0 {
        return if total.is_zero() {
            let none: Vec<Money> = Vec::new();
            Ok(none)
        } else {
            Err(Error::allocation("cannot allocate a non-zero amount to zero recipients"))
        };
    }
    let mut whole = Natural::new(0);
    let mut i: usize = 0;
    assert(plain.take(0) =~= Seq::<int>::empty());
    while i < weights.len()
        invariant
            plain == wide_ints(weights@),
            i <= weights@.len(),
            whole@ == sum(plain.take(i as int)),
            forall|k: int| 0 <= k < i ==> #[trigger] plain[k] >= 0,
        decreases weights@.len() - i,
    {
        let weight = &weights[i];
        assert(plain[i as int] == weight@);
        if weight.is_negative() {
            return Err(Error::allocation("allocation weights must be non-negative"));
        }
        proof {
            lemma_sum_take(plain, i as int);
        }
        whole = whole.plus(weight.size());
        i += 1;
    }
    assert(plain.take(i as int) =~= plain);
    proof {
        whole.lemma_not_negative();
    }
    if whole.is_zero() {
        return allocate_evenly(total, weights.len());
    }
    let parts = split_widely(total.minor, weights, &whole);
    let amounts = to_amounts(&parts, total.currency);
    assert(amounts@ =~= amounts_of(parts_of(total.minor as int, plain), total.currency));
    Ok(amounts)
}

/// Split `total` into `parts` shares that differ by at most one minor unit.
pub fn allocate_evenly(total: Money, parts: usize) -> (shares: Result<Vec<Money>, Error>)
    ensures
        list_outcome(shares) == allocation(total, even_weights(parts as nat)),
        forall|weights: Seq<int>|
            weights.len() == parts && non_negative(weights) && sum(weights) == 0
                ==> list_outcome(shares) == #[trigger] allocation(total, weights),
{
    if parts == 0 {
        return if total.is_zero() {
            let none: Vec<Money> = Vec::new();
            Ok(none)
        } else {
            Err(Error::allocation("cannot allocate a non-zero amount to zero recipients"))
        };
    }
    let mut weights: Vec<i64> = Vec::new();
    let mut i: usize = 0;
    while i < parts
        invariant
            i <= parts,
            weights@.len() == i,
            forall|k: int| 0 <= k < i ==> #[trigger] weights@[k] == 1,
        decreases parts - i,
    {
        weights.push(1);
        i += 1;
    }
    let ghost even = even_weights(parts as nat);
    assert(as_ints(weights@) =~= even);
    proof {
        lemma_sum_ones(parts as nat);
    }
    let list = split(total.minor, &weights, parts as i128);
    let amounts = to_amounts(&list, total.currency);
    assert(amounts@ =~= amounts_of(parts_of(total.minor as int, even), total.currency));
    proof {
        assert forall|weights: Seq<int>|
            weights.len() == parts && non_negative(weights) && sum(weights) == 0 implies Ok::<
            Seq<Money>,
            ErrorView,
        >(amounts@) == #[trigger] allocation(total, weights) by {
            assert(parts_of(total.minor as int, weights) =~= parts_of(total.minor as int, even));
        }
    }
    Ok(amounts)
}

/// What splitting an amount by amounts gives: the first weight in another currency
/// or below zero decides the error.
pub open spec fn weighted_allocation(amount: Money, weights: Seq<Money>) -> Result<
    Seq<Money>,
    ErrorView,
> {
    match first_bad_weight(amount, weights) {
        Some(error) => Err(error),
        None => allocation(amount, minors(weights)),
    }
}

/// The error of the first weight that may not be used.
pub open spec fn first_bad_weight(amount: Money, weights: Seq<Money>) -> Option<ErrorView>
    decreases weights.len(),
{
    if weights.len() == 0 {
        None
    } else {
        match first_bad_weight(amount, weights.drop_last()) {
            Some(error) => Some(error),
            None => if weights.last().currency != amount.currency {
                Some(
                    ErrorView::CurrencyMismatch {
                        expected: amount.currency,
                        actual: weights.last().currency,
                    },
                )
            } else if weights.last().minor < 0 {
                Some(ErrorView::Allocation("allocation weights must be non-negative"@))
            } else {
                None
            },
        }
    }
}

/// Weights in the currency of the amount, none of them negative, may all be used.
pub proof fn law_good_weights(amount: Money, weights: Seq<Money>)
    ensures
        first_bad_weight(amount, weights) is None <==> all_in(weights, amount.currency)
            && non_negative(minors(weights)),
    decreases weights.len(),
{
    if weights.len() > 0 {
        let rest = weights.drop_last();
        law_good_weights(amount, rest);
        assert(minors(rest) =~= minors(weights).drop_last());
        let last = weights.len() - 1;
        if first_bad_weight(amount, weights) is None {
            assert forall|i: int| 0 <= i < weights.len() implies (#[trigger] weights[i]).currency
                == amount.currency by {
                if i < last {
                    assert(rest[i] == weights[i]);
                }
            }
            assert forall|i: int| 0 <= i < weights.len() implies #[trigger] minors(weights)[i]
                >= 0 by {
                if i < last {
                    assert(minors(rest)[i] == minors(weights)[i]);
                }
            }
        }
        if all_in(weights, amount.currency) && non_negative(minors(weights)) {
            assert(weights[last].currency == amount.currency);
            assert(minors(weights)[last] >= 0);
            assert forall|i: int| 0 <= i < rest.len() implies (#[trigger] rest[i]).currency
                == amount.currency by {
                assert(rest[i] == weights[i]);
            }
            assert forall|i: int| 0 <= i < rest.len() implies #[trigger] minors(rest)[i] >= 0 by {
                assert(minors(rest)[i] == minors(weights)[i]);
            }
        }
    }
}

/// Split `total` proportionally to a set of [`Money`] weights (e.g. line subtotals).
///
/// All weights must share `total`'s currency.
pub fn allocate_by_weights(total: Money, weights: &[Money]) -> (parts: Result<Vec<Money>, Error>)
    ensures
        list_outcome(parts) == weighted_allocation(total, weights@),
{
    let mut numeric: Vec<i64> = Vec::new();
    let mut i: usize = 0;
    assert(weights@.take(0) =~= Seq::<Money>::empty());
    while i < weights.len()
        invariant
            i <= weights@.len(),
            numeric@.len() == i,
            forall|k: int| 0 <= k < i ==> #[trigger] numeric@[k] == weights@[k].minor,
            first_bad_weight(total, weights@.take(i as int)) is None,
        decreases weights@.len() - i,
    {
        assert(weights@.take(i + 1).drop_last() =~= weights@.take(i as int));
        let weight = weights[i];
        match total.assert_same_currency(weight) {
            Ok(_) => {},
            Err(error) => {
                proof {
                    lemma_prefix_finding_stays(
                        |part: Seq<Money>| first_bad_weight(total, part),
                        weights@,
                        i + 1,
                    );
                }
                return Err(error);
            },
        }
        if weight.is_negative() {
            proof {
                lemma_prefix_finding_stays(
                    |part: Seq<Money>| first_bad_weight(total, part),
                    weights@,
                    i + 1,
                );
            }
            return Err(Error::allocation("allocation weights must be non-negative"));
        }
        numeric.push(weight.minor());
        i += 1;
    }
    assert(weights@.take(i as int) =~= weights@);
    assert(as_ints(numeric@) =~= minors(weights@));
    allocate(total, numeric.as_slice())
}

/// Every part is the floor of its exact share or one unit more, and the units that the
/// floors leave go to the largest remainders, the earlier of two equal ones first.
pub proof fn law_leftovers_go_to_the_largest_remainders(
    amount: int,
    weights: Seq<int>,
    i: int,
    j: int,
)
    requires
        amount >= 0,
        sum(weights) > 0,
        0 <= i < weights.len(),
        0 <= j < weights.len(),
        i != j,
    ensures
        ({
            let whole = sum(weights);
            let parts = parts_of(amount, weights);
            let first = parts[i] - amount * weights[i] / whole;
            let second = parts[j] - amount * weights[j] / whole;
            let left = amount * weights[i] % whole;
            let right = amount * weights[j] % whole;
            &&& first == 0 || first == 1
            &&& left > right || (left == right && i < j) ==> first >= second
        }),
{
    let left = remainders(amount, weights);
    let n = weights.len() as int;
    if ahead(left, i, j) {
        lemma_ahead_finite(left, n, i);
        lemma_ahead_finite(left, n, j);
        let before = all_ahead(left, n, i);
        let after = all_ahead(left, n, j);
        assert forall|k: int| #[trigger] before.contains(k) implies after.contains(k) by {
            assert(ahead(left, k, i));
        }
        lemma_len_subset(before, after);
    }
}

} // verus!
