//! Stable sorting by rank.

use vstd::prelude::*;

verus! {

/// Where something stands in an order: by the first number, then the second, then the
/// third, smaller ones first.
#[derive(Debug, Clone, Copy, PartialEq, Eq, Structural)]
pub struct Rank {
    /// Decides first.
    pub first: i128,
    /// Decides between equal first numbers.
    pub second: i128,
    /// Decides between equal second numbers.
    pub third: i128,
}

impl Rank {
    /// Whether this rank comes strictly before another.
    pub open spec fn before(self, other: Rank) -> bool {
        ||| self.first < other.first
        ||| self.first == other.first && self.second < other.second
        ||| self.first == other.first && self.second == other.second && self.third < other.third
    }

    /// Whether this rank comes strictly before another.
    pub fn is_before(self, other: Rank) -> (before: bool)
        ensures
            before == self.before(other),
    {
        self.first < other.first || (self.first == other.first && (self.second < other.second || (
        self.second == other.second && self.third < other.third)))
    }
}

/// Whether the item at `a` comes before the item at `b` in the stable order of ranks.
pub open spec fn precedes(ranks: Seq<Rank>, a: int, b: int) -> bool {
    ranks[a].before(ranks[b]) || (ranks[a] == ranks[b] && a < b)
}

/// Whether `order` lists every position once, in the stable order of ranks.
pub open spec fn is_sorting(order: Seq<usize>, ranks: Seq<Rank>) -> bool {
    &&& order.len() == ranks.len()
    &&& forall|i: int| 0 <= i < order.len() ==> (#[trigger] order[i]) < ranks.len()
    &&& forall|i: int, j: int|
        0 <= i < j < order.len() ==> precedes(ranks, #[trigger] order[i] as int, #[trigger] order[j] as int)
}

/// Whether `sorted` holds the items of `list` in the stable order of their ranks.
pub open spec fn is_sorted_by<T>(sorted: Seq<T>, list: Seq<T>, ranks: Seq<Rank>) -> bool {
    exists|order: Seq<usize>| #[trigger]
        is_sorting(order, ranks) && sorted == Seq::new(
            order.len(),
            |i: int| list[order[i] as int],
        )
}

/// The positions of a list in the stable order of its ranks.
pub fn sort_positions(ranks: &Vec<Rank>) -> (order: Vec<usize>)
    ensures
        is_sorting(order@, ranks@),
{
    let mut order: Vec<usize> = Vec::new();
    let mut n: usize = 0;
    while n < ranks.len()
        invariant
            n <= ranks@.len(),
            order@.len() == n,
            forall|i: int| 0 <= i < order@.len() ==> (#[trigger] order@[i]) < n,
            forall|i: int, j: int|
                0 <= i < j < order@.len() ==> precedes(
                    ranks@,
                    #[trigger] order@[i] as int,
                    #[trigger] order@[j] as int,
                ),
        decreases ranks@.len() - n,
    {
        let mut at: usize = n;
        while at > 0 && ranks[n].is_before(ranks[order[at - 1]])
            invariant
                n < ranks@.len(),
                at <= n,
                order@.len() == n,
                forall|i: int| 0 <= i < order@.len() ==> (#[trigger] order@[i]) < n,
                forall|i: int|
                    at <= i < n ==> ranks@[n as int].before(
                        ranks@[(#[trigger] order@[i]) as int],
                    ),
            ensures
                at > 0 ==> !ranks@[n as int].before(ranks@[order@[at - 1] as int]),
            decreases at,
        {
            at -= 1;
        }
        let ghost before = order@;
        order.insert(at, n);
        assert forall|i: int, j: int| 0 <= i < j < order@.len() implies precedes(
            ranks@,
            #[trigger] order@[i] as int,
            #[trigger] order@[j] as int,
        ) by {
            if j < at {
                assert(order@[i] == before[i] && order@[j] == before[j]);
            } else if j == at {
                assert(order@[i] == before[i]);
                if i < at - 1 {
                    assert(precedes(ranks@, before[i] as int, before[at - 1] as int));
                }
            } else if i < at {
                assert(order@[i] == before[i] && order@[j] == before[j - 1]);
            } else if i == at {
                assert(order@[j] == before[j - 1]);
            } else {
                assert(order@[i] == before[i - 1] && order@[j] == before[j - 1]);
            }
        }
        assert forall|i: int| 0 <= i < order@.len() implies (#[trigger] order@[i]) < n + 1 by {
            if i < at {
                assert(order@[i] == before[i]);
            } else if i > at {
                assert(order@[i] == before[i - 1]);
            }
        }
        n += 1;
    }
    order
}

/// There is only one stable order of given ranks.
pub proof fn law_sorting_is_unique(a: Seq<usize>, b: Seq<usize>, ranks: Seq<Rank>)
    requires
        is_sorting(a, ranks),
        is_sorting(b, ranks),
    ensures
        a == b,
{
    assert forall|i: int| 0 <= i < a.len() implies a[i] == b[i] by {
        lemma_sorting_agrees(a, b, ranks, i);
    }
    assert(a =~= b);
}

proof fn lemma_sorting_lists_all(order: Seq<usize>, ranks: Seq<Rank>, position: usize)
    requires
        is_sorting(order, ranks),
        position < ranks.len(),
    ensures
        exists|k: int| 0 <= k < order.len() && #[trigger] order[k] == position,
{
    if !exists|k: int| 0 <= k < order.len() && #[trigger] order[k] == position {
        // Distinct positions below the length, none of them this one, are too few.
        let numbers = order.map_values(|p: usize| p as int);
        let all = vstd::set_lib::set_int_range(0, ranks.len() as int).remove(position as int);
        let listed = numbers.to_set();
        assert forall|i: int, j: int| 0 <= i < j < numbers.len() implies numbers[i] != numbers[j] by {
            assert(precedes(ranks, order[i] as int, order[j] as int));
        }
        assert(numbers.no_duplicates());
        numbers.unique_seq_to_set();
        vstd::set_lib::lemma_int_range(0, ranks.len() as int);
        assert forall|p: int| listed.contains(p) implies all.contains(p) by {
            let k = choose|k: int| 0 <= k < numbers.len() && numbers[k] == p;
            assert(order[k] < ranks.len());
            assert(order[k] != position);
        }
        vstd::set_lib::lemma_len_subset(listed, all);
    }
}

proof fn lemma_sorting_agrees(a: Seq<usize>, b: Seq<usize>, ranks: Seq<Rank>, i: int)
    requires
        is_sorting(a, ranks),
        is_sorting(b, ranks),
        0 <= i < a.len(),
    ensures
        a[i] == b[i],
    decreases i,
{
    assert forall|k: int| 0 <= k < i implies a[k] == b[k] by {
        lemma_sorting_agrees(a, b, ranks, k);
    }
    if a[i] != b[i] {
        lemma_sorting_lists_all(b, ranks, a[i]);
        lemma_sorting_lists_all(a, ranks, b[i]);
        let in_b = choose|k: int| 0 <= k < b.len() && b[k] == a[i];
        let in_a = choose|k: int| 0 <= k < a.len() && a[k] == b[i];
        if in_b < i {
            assert(a[in_b] == b[in_b]);
            assert(precedes(ranks, a[in_b] as int, a[i] as int));
        } else if in_a < i {
            assert(a[in_a] == b[in_a]);
            assert(precedes(ranks, b[in_a] as int, b[i] as int));
        } else {
            assert(precedes(ranks, a[i] as int, a[in_a] as int));
            assert(precedes(ranks, b[i] as int, b[in_b] as int));
        }
    }
}

} // verus!
