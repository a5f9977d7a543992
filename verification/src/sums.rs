//! Sums of integer sequences, the arithmetic behind every balance check.

use vstd::prelude::*;

verus! {

/// The sum of a sequence.
pub open spec fn sum(s: Seq<int>) -> int
    decreases s.len(),
{
    if s.len() == 0 {
        0
    } else {
        sum(s.drop_last()) + s.last()
    }
}

/// Appending a term adds it.
pub proof fn lemma_sum_push(s: Seq<int>, x: int)
    ensures
        sum(s.push(x)) == sum(s) + x,
{
    assert(s.push(x).drop_last() =~= s);
}

/// One more term of a longer sequence.
pub proof fn lemma_sum_take(s: Seq<int>, i: int)
    requires
        0 <= i < s.len(),
    ensures
        sum(s.take(i + 1)) == sum(s.take(i)) + s[i],
{
    assert(s.take(i + 1).drop_last() =~= s.take(i));
}

/// Replacing a term changes the sum by the difference.
pub proof fn lemma_sum_update(s: Seq<int>, i: int, x: int)
    requires
        0 <= i < s.len(),
    ensures
        sum(s.update(i, x)) == sum(s) - s[i] + x,
    decreases s.len(),
{
    if i == s.len() - 1 {
        assert(s.update(i, x).drop_last() =~= s.drop_last());
    } else {
        lemma_sum_update(s.drop_last(), i, x);
        assert(s.update(i, x).drop_last() =~= s.drop_last().update(i, x));
    }
}

/// A sum of non-negative terms is non-negative and bounds each of its parts.
pub proof fn lemma_sum_non_negative(s: Seq<int>)
    requires
        forall|i: int| 0 <= i < s.len() ==> #[trigger] s[i] >= 0,
    ensures
        sum(s) >= 0,
        forall|i: int| 0 <= i < s.len() ==> #[trigger] s[i] <= sum(s),
    decreases s.len(),
{
    if s.len() > 0 {
        let rest = s.drop_last();
        assert forall|i: int| 0 <= i < rest.len() implies #[trigger] rest[i] >= 0 by {
            assert(rest[i] == s[i]);
        }
        lemma_sum_non_negative(rest);
        assert(s[s.len() - 1] >= 0);
        assert forall|i: int| 0 <= i < s.len() implies #[trigger] s[i] <= sum(s) by {
            if i < rest.len() {
                assert(rest[i] == s[i]);
            }
        }
    }
}

/// A prefix of non-negative terms sums to no more than the whole.
pub proof fn lemma_sum_prefix(s: Seq<int>, i: int)
    requires
        0 <= i <= s.len(),
        forall|j: int| 0 <= j < s.len() ==> #[trigger] s[j] >= 0,
    ensures
        0 <= sum(s.take(i)) <= sum(s),
    decreases s.len(),
{
    assert forall|j: int| 0 <= j < s.take(i).len() implies #[trigger] s.take(i)[j] >= 0 by {
        assert(s.take(i)[j] == s[j]);
    }
    lemma_sum_non_negative(s.take(i));
    if i == s.len() {
        assert(s.take(i) =~= s);
    } else {
        let rest = s.drop_last();
        assert forall|j: int| 0 <= j < rest.len() implies #[trigger] rest[j] >= 0 by {
            assert(rest[j] == s[j]);
        }
        lemma_sum_prefix(rest, i);
        assert(rest.take(i) =~= s.take(i));
        assert(s[s.len() - 1] >= 0);
    }
}

/// Sums of sequences of equal length add term by term.
pub proof fn lemma_sum_add(a: Seq<int>, b: Seq<int>, c: Seq<int>)
    requires
        a.len() == b.len() == c.len(),
        forall|i: int| 0 <= i < a.len() ==> #[trigger] c[i] == a[i] + b[i],
    ensures
        sum(c) == sum(a) + sum(b),
    decreases a.len(),
{
    if a.len() > 0 {
        let i = a.len() - 1;
        assert(c[i] == a[i] + b[i]);
        assert forall|j: int| 0 <= j < a.drop_last().len() implies #[trigger] c.drop_last()[j]
            == a.drop_last()[j] + b.drop_last()[j] by {
            assert(c[j] == a[j] + b[j]);
        }
        lemma_sum_add(a.drop_last(), b.drop_last(), c.drop_last());
    }
}

/// A sum is no larger when none of its terms is.
pub proof fn lemma_sum_le(a: Seq<int>, b: Seq<int>)
    requires
        a.len() == b.len(),
        forall|i: int| 0 <= i < a.len() ==> #[trigger] a[i] <= b[i],
    ensures
        sum(a) <= sum(b),
    decreases a.len(),
{
    if a.len() > 0 {
        let i = a.len() - 1;
        assert(a[i] <= b[i]);
        assert forall|j: int| 0 <= j < a.drop_last().len() implies #[trigger] a.drop_last()[j]
            <= b.drop_last()[j] by {
            assert(a[j] <= b[j]);
        }
        lemma_sum_le(a.drop_last(), b.drop_last());
    }
}

/// The sum of two sequences, one after the other.
pub proof fn lemma_sum_concat(a: Seq<int>, b: Seq<int>)
    ensures
        sum(a + b) == sum(a) + sum(b),
    decreases b.len(),
{
    if b.len() == 0 {
        assert(a + b =~= a);
    } else {
        lemma_sum_concat(a, b.drop_last());
        assert((a + b).drop_last() =~= a + b.drop_last());
    }
}

/// Scaling every term scales the sum.
pub proof fn lemma_sum_scale(a: Seq<int>, b: Seq<int>, k: int)
    requires
        a.len() == b.len(),
        forall|i: int| 0 <= i < a.len() ==> #[trigger] b[i] == k * a[i],
    ensures
        sum(b) == k * sum(a),
    decreases a.len(),
{
    if a.len() > 0 {
        let i = a.len() - 1;
        assert(b[i] == k * a[i]);
        assert forall|j: int| 0 <= j < a.drop_last().len() implies #[trigger] b.drop_last()[j] == k
            * a.drop_last()[j] by {
            assert(b[j] == k * a[j]);
        }
        lemma_sum_scale(a.drop_last(), b.drop_last(), k);
        assert(k * sum(a) == k * sum(a.drop_last()) + k * a[i]) by (nonlinear_arith)
            requires
                sum(a) == sum(a.drop_last()) + a[i],
        ;
    } else {
        assert(k * 0 == 0) by (nonlinear_arith);
    }
}

} // verus!
