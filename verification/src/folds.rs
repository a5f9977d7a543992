//! Folds that stop at the first failure.

use vstd::prelude::*;

verus! {

/// A fold that has failed stays as it is, however many more steps it takes.
pub proof fn lemma_error_stays<T, E>(fold: spec_fn(int) -> Result<T, E>, n: int, m: int)
    requires
        n <= m,
        fold(n) is Err,
        forall|k: int| n <= k < m && (#[trigger] fold(k)) is Err ==> fold(k + 1) == fold(k),
    ensures
        fold(m) == fold(n),
    decreases m - n,
{
    if n < m {
        lemma_error_stays(fold, n, m - 1);
        assert(fold(m - 1 + 1) == fold(m - 1));
    }
}

/// A search that has found something keeps it, however many more steps it takes.
pub proof fn lemma_finding_stays<T>(search: spec_fn(int) -> Option<T>, n: int, m: int)
    requires
        n <= m,
        search(n) is Some,
        forall|k: int| n <= k < m && (#[trigger] search(k)) is Some ==> search(k + 1) == search(k),
    ensures
        search(m) == search(n),
    decreases m - n,
{
    if n < m {
        lemma_finding_stays(search, n, m - 1);
        assert(search(m - 1 + 1) == search(m - 1));
    }
}

/// A fold over a list that fails on a prefix fails on the whole list in the same way.
pub proof fn lemma_prefix_error_stays<A, T, E>(
    fold: spec_fn(Seq<A>) -> Result<T, E>,
    list: Seq<A>,
    upto: int,
)
    requires
        0 <= upto <= list.len(),
        fold(list.take(upto)) is Err,
        forall|part: Seq<A>|
            part.len() > 0 && fold(part.drop_last()) is Err ==> #[trigger] fold(part) == fold(
                part.drop_last(),
            ),
    ensures
        fold(list) == fold(list.take(upto)),
    decreases list.len(),
{
    if upto == list.len() {
        assert(list.take(upto) =~= list);
    } else {
        assert(list.drop_last().take(upto) =~= list.take(upto));
        lemma_prefix_error_stays(fold, list.drop_last(), upto);
    }
}

/// A search through a list that finds something in a prefix finds it in the whole list.
pub proof fn lemma_prefix_finding_stays<A, T>(
    search: spec_fn(Seq<A>) -> Option<T>,
    list: Seq<A>,
    upto: int,
)
    requires
        0 <= upto <= list.len(),
        search(list.take(upto)) is Some,
        forall|part: Seq<A>|
            part.len() > 0 && search(part.drop_last()) is Some ==> #[trigger] search(part)
                == search(part.drop_last()),
    ensures
        search(list) == search(list.take(upto)),
    decreases list.len(),
{
    if upto == list.len() {
        assert(list.take(upto) =~= list);
    } else {
        assert(list.drop_last().take(upto) =~= list.take(upto));
        lemma_prefix_finding_stays(search, list.drop_last(), upto);
    }
}

} // verus!
