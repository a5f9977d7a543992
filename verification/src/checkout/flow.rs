//! The order of the steps of a checkout.
//!
//! A checkout first claims its request's key. The key of a checkout that finished
//! replays the order it placed and does nothing else; the key of one that failed is
//! released, so that the request can be retried.
//!
//! Stored value is spent before the gateways are asked, because it cannot fail
//! asynchronously; whatever fails after that unwinds everything that was done:
//! holds are released and stored value is given back, so a declined card never
//! leaves a gift card silently drained.

use vstd::prelude::*;

use crate::error::Error;
use crate::storage::memory::{after_claim, after_completion, claim, tells, EntryView};
use crate::storage::IdempotencyOutcome;

verus! {

/// What a checkout does next.
#[derive(Debug, Clone, Copy, PartialEq, Eq, Structural)]
pub enum CheckoutStep {
    /// Claim the key of the request.
    Claim,
    /// Price and screen the cart, and open the order.
    Open,
    /// Save the order, before any money moves.
    SaveOrder,
    /// Spend the stored value of a tender.
    Redeem(usize),
    /// Authorise a gateway tender.
    Authorize(usize),
    /// Reflect the payments on the order and save it.
    Conclude,
    /// Keep the order under the key of the request.
    Complete,
    /// Release the hold of a payment that had succeeded.
    Void(usize),
    /// Give the stored value of a tender back.
    Release(usize),
    /// Save the order as failed.
    SaveFailed,
    /// Release the key of the request, so that it can be retried.
    Forget,
    /// Load the order that an earlier run of the request placed.
    Replay,
    /// The order is placed.
    Placed,
    /// The order that was placed before was found again.
    Replayed,
    /// The checkout failed.
    Failed,
}

impl CheckoutStep {
    /// The step at a tender, or the first authorisation after the last tender.
    pub open spec fn redeem_from(index: int, tenders: usize) -> CheckoutStep {
        if index < tenders {
            CheckoutStep::Redeem(index as usize)
        } else {
            CheckoutStep::authorize_from(0, tenders)
        }
    }

    /// The authorisation of a tender, or the conclusion after the last tender.
    pub open spec fn authorize_from(index: int, tenders: usize) -> CheckoutStep {
        if index < tenders {
            CheckoutStep::Authorize(index as usize)
        } else {
            CheckoutStep::Conclude
        }
    }

    /// The release of a payment, or the first release of stored value after the last payment.
    pub open spec fn void_from(index: int, tenders: usize, payments: usize) -> CheckoutStep {
        if index < payments {
            CheckoutStep::Void(index as usize)
        } else {
            CheckoutStep::release_from(0, tenders)
        }
    }

    /// The release of stored value of a tender, or the end after the last tender.
    pub open spec fn release_from(index: int, tenders: usize) -> CheckoutStep {
        if index < tenders {
            CheckoutStep::Release(index as usize)
        } else {
            CheckoutStep::SaveFailed
        }
    }

    /// Whether the checkout is over.
    pub open spec fn over(self) -> bool {
        self is Placed || self is Replayed || self is Failed
    }

    /// Whether the step does anything to an order, a tender or a payment.
    pub open spec fn acts(self) -> bool {
        !(self is Claim || self is Replay || self is Forget || self.over())
    }

    /// The step after the claim of a key was answered: a new key is gone on with, a
    /// finished one is replayed, and any other stops the checkout.
    pub open spec fn after_answer(answer: Result<IdempotencyOutcome, Error>) -> CheckoutStep {
        match answer {
            Ok(IdempotencyOutcome::Started) => CheckoutStep::Open,
            Ok(IdempotencyOutcome::Completed(_)) => CheckoutStep::Replay,
            Ok(IdempotencyOutcome::InFlight) => CheckoutStep::Failed,
            Err(_) => CheckoutStep::Failed,
        }
    }

    /// The step after this one, for a checkout of an order with a number of tenders of
    /// which a number of payments has been made. A claim succeeds where the key is new.
    pub open spec fn following(self, succeeded: bool, tenders: usize, payments: usize) -> CheckoutStep {
        match self {
            CheckoutStep::Claim => if succeeded {
                CheckoutStep::Open
            } else {
                CheckoutStep::Failed
            },
            CheckoutStep::Open => if succeeded {
                CheckoutStep::SaveOrder
            } else {
                CheckoutStep::Forget
            },
            CheckoutStep::SaveOrder => if succeeded {
                CheckoutStep::redeem_from(0, tenders)
            } else {
                CheckoutStep::Forget
            },
            CheckoutStep::Redeem(index) => if succeeded {
                CheckoutStep::redeem_from(index + 1, tenders)
            } else {
                CheckoutStep::void_from(0, tenders, payments)
            },
            CheckoutStep::Authorize(index) => if succeeded {
                CheckoutStep::authorize_from(index + 1, tenders)
            } else {
                CheckoutStep::void_from(0, tenders, payments)
            },
            CheckoutStep::Conclude => if succeeded {
                CheckoutStep::Complete
            } else {
                CheckoutStep::void_from(0, tenders, payments)
            },
            CheckoutStep::Complete => CheckoutStep::Placed,
            CheckoutStep::Void(index) => CheckoutStep::void_from(index + 1, tenders, payments),
            CheckoutStep::Release(index) => CheckoutStep::release_from(index + 1, tenders),
            CheckoutStep::SaveFailed => CheckoutStep::Forget,
            CheckoutStep::Forget => CheckoutStep::Failed,
            CheckoutStep::Replay => if succeeded {
                CheckoutStep::Replayed
            } else {
                CheckoutStep::Failed
            },
            CheckoutStep::Placed => CheckoutStep::Placed,
            CheckoutStep::Replayed => CheckoutStep::Replayed,
            CheckoutStep::Failed => CheckoutStep::Failed,
        }
    }

    /// The step after `count` more, where `outcomes` says which of them succeed and no
    /// payment is made on the way.
    pub open spec fn reached(
        self,
        outcomes: spec_fn(int) -> bool,
        tenders: usize,
        payments: usize,
        count: int,
    ) -> CheckoutStep
        decreases count,
    {
        if count <= 0 {
            self
        } else {
            self.reached(outcomes, tenders, payments, count - 1).following(
                outcomes(count - 1),
                tenders,
                payments,
            )
        }
    }

    /// The first step of a checkout.
    pub fn first() -> (step: CheckoutStep)
        ensures
            step == CheckoutStep::Claim,
    {
        CheckoutStep::Claim
    }

    /// The step after the claim of the request's key was answered.
    ///
    /// The key of a checkout that finished leads to the order that it placed: nothing is
    /// saved, spent or charged again.
    pub fn claimed(answer: &Result<IdempotencyOutcome, Error>) -> (step: CheckoutStep)
        ensures
            step == CheckoutStep::after_answer(*answer),
            answer matches Ok(IdempotencyOutcome::Completed(_)) ==> forall|
                outcomes: spec_fn(int) -> bool,
                tenders: usize,
                payments: usize,
                count: int,
            | !(#[trigger] step.reached(outcomes, tenders, payments, count)).acts(),
    {
        let step = match answer {
            Ok(IdempotencyOutcome::Started) => CheckoutStep::Open,
            Ok(IdempotencyOutcome::Completed(_)) => CheckoutStep::Replay,
            Ok(IdempotencyOutcome::InFlight) => CheckoutStep::Failed,
            Err(_) => CheckoutStep::Failed,
        };
        proof {
            if step is Replay {
                assert forall|
                    outcomes: spec_fn(int) -> bool,
                    tenders: usize,
                    payments: usize,
                    count: int,
                | !(#[trigger] step.reached(outcomes, tenders, payments, count)).acts() by {
                    lemma_replays_do_nothing(step, outcomes, tenders, payments, count);
                }
            }
        }
        step
    }

    /// Whether the checkout is over.
    pub fn is_over(self) -> (over: bool)
        ensures
            over == self.over(),
    {
        self == CheckoutStep::Placed || self == CheckoutStep::Replayed || self
            == CheckoutStep::Failed
    }

    fn redeeming(index: usize, tenders: usize) -> (step: CheckoutStep)
        ensures
            step == CheckoutStep::redeem_from(index as int, tenders),
    {
        if index < tenders {
            CheckoutStep::Redeem(index)
        } else {
            CheckoutStep::authorizing(0, tenders)
        }
    }

    fn authorizing(index: usize, tenders: usize) -> (step: CheckoutStep)
        ensures
            step == CheckoutStep::authorize_from(index as int, tenders),
    {
        if index < tenders {
            CheckoutStep::Authorize(index)
        } else {
            CheckoutStep::Conclude
        }
    }

    fn voiding(index: usize, tenders: usize, payments: usize) -> (step: CheckoutStep)
        ensures
            step == CheckoutStep::void_from(index as int, tenders, payments),
    {
        if index < payments {
            CheckoutStep::Void(index)
        } else {
            CheckoutStep::releasing(0, tenders)
        }
    }

    fn releasing(index: usize, tenders: usize) -> (step: CheckoutStep)
        ensures
            step == CheckoutStep::release_from(index as int, tenders),
    {
        if index < tenders {
            CheckoutStep::Release(index)
        } else {
            CheckoutStep::SaveFailed
        }
    }

    /// The step after this one. `tenders` is the number of tenders of the order, and
    /// `payments` the number of payments that have been authorised so far.
    pub fn next(self, succeeded: bool, tenders: usize, payments: usize) -> (step: CheckoutStep)
        ensures
            step == self.following(succeeded, tenders, payments),
    {
        match self {
            CheckoutStep::Claim => if succeeded {
                CheckoutStep::Open
            } else {
                CheckoutStep::Failed
            },
            CheckoutStep::Open => if succeeded {
                CheckoutStep::SaveOrder
            } else {
                CheckoutStep::Forget
            },
            CheckoutStep::SaveOrder => if succeeded {
                Self::redeeming(0, tenders)
            } else {
                CheckoutStep::Forget
            },
            CheckoutStep::Redeem(index) => if !succeeded {
                Self::voiding(0, tenders, payments)
            } else if index < tenders {
                Self::redeeming(index + 1, tenders)
            } else {
                Self::authorizing(0, tenders)
            },
            CheckoutStep::Authorize(index) => if !succeeded {
                Self::voiding(0, tenders, payments)
            } else if index < tenders {
                Self::authorizing(index + 1, tenders)
            } else {
                CheckoutStep::Conclude
            },
            CheckoutStep::Conclude => if succeeded {
                CheckoutStep::Complete
            } else {
                Self::voiding(0, tenders, payments)
            },
            CheckoutStep::Complete => CheckoutStep::Placed,
            CheckoutStep::Void(index) => if index < payments {
                Self::voiding(index + 1, tenders, payments)
            } else {
                Self::releasing(0, tenders)
            },
            CheckoutStep::Release(index) => if index < tenders {
                Self::releasing(index + 1, tenders)
            } else {
                CheckoutStep::SaveFailed
            },
            CheckoutStep::SaveFailed => CheckoutStep::Forget,
            CheckoutStep::Forget => CheckoutStep::Failed,
            CheckoutStep::Replay => if succeeded {
                CheckoutStep::Replayed
            } else {
                CheckoutStep::Failed
            },
            CheckoutStep::Placed => CheckoutStep::Placed,
            CheckoutStep::Replayed => CheckoutStep::Replayed,
            CheckoutStep::Failed => CheckoutStep::Failed,
        }
    }
}

proof fn lemma_unwinding(
    start: CheckoutStep,
    outcomes: spec_fn(int) -> bool,
    tenders: usize,
    payments: usize,
    count: int,
)
    requires
        start == CheckoutStep::void_from(0, tenders, payments),
        0 <= count,
    ensures
        start.reached(outcomes, tenders, payments, count) == if count < payments {
            CheckoutStep::Void(count as usize)
        } else if count < payments + tenders {
            CheckoutStep::Release((count - payments) as usize)
        } else if count == payments + tenders {
            CheckoutStep::SaveFailed
        } else if count == payments + tenders + 1 {
            CheckoutStep::Forget
        } else {
            CheckoutStep::Failed
        },
    decreases count,
{
    if count > 0 {
        lemma_unwinding(start, outcomes, tenders, payments, count - 1);
    }
}

/// Every failure after the order was saved unwinds: each payment that was made is
/// released, then the stored value of each tender is given back, then the order is saved as
/// failed and the key of the request is released, whatever else fails on the way.
pub proof fn law_failures_unwind_everything(
    step: CheckoutStep,
    outcomes: spec_fn(int) -> bool,
    tenders: usize,
    payments: usize,
    index: int,
)
    requires
        step is Redeem || step is Authorize || step is Conclude,
    ensures
        ({
            let start = step.following(false, tenders, payments);
            &&& 0 <= index < payments ==> start.reached(outcomes, tenders, payments, index)
                == CheckoutStep::Void(index as usize)
            &&& 0 <= index < tenders ==> start.reached(
                outcomes,
                tenders,
                payments,
                payments + index,
            ) == CheckoutStep::Release(index as usize)
            &&& start.reached(outcomes, tenders, payments, payments + tenders)
                == CheckoutStep::SaveFailed
            &&& start.reached(outcomes, tenders, payments, payments + tenders + 1)
                == CheckoutStep::Forget
            &&& start.reached(outcomes, tenders, payments, payments + tenders + 2)
                == CheckoutStep::Failed
        }),
{
    let start = step.following(false, tenders, payments);
    if 0 <= index < payments {
        lemma_unwinding(start, outcomes, tenders, payments, index);
    }
    if 0 <= index < tenders {
        lemma_unwinding(start, outcomes, tenders, payments, payments + index);
    }
    lemma_unwinding(start, outcomes, tenders, payments, payments + tenders);
    lemma_unwinding(start, outcomes, tenders, payments, payments + tenders + 1);
    lemma_unwinding(start, outcomes, tenders, payments, payments + tenders + 2);
}

proof fn lemma_progress(
    outcomes: spec_fn(int) -> bool,
    tenders: usize,
    payments: usize,
    count: int,
)
    requires
        forall|i: int| #[trigger] outcomes(i),
        0 <= count,
    ensures
        CheckoutStep::Claim.reached(outcomes, tenders, payments, count) == if count == 0 {
            CheckoutStep::Claim
        } else if count == 1 {
            CheckoutStep::Open
        } else if count == 2 {
            CheckoutStep::SaveOrder
        } else if count <= tenders + 2 {
            CheckoutStep::Redeem((count - 3) as usize)
        } else if count <= 2 * tenders + 2 {
            CheckoutStep::Authorize((count - tenders - 3) as usize)
        } else if count == 2 * tenders + 3 {
            CheckoutStep::Conclude
        } else if count == 2 * tenders + 4 {
            CheckoutStep::Complete
        } else {
            CheckoutStep::Placed
        },
    decreases count,
{
    if count > 0 {
        lemma_progress(outcomes, tenders, payments, count - 1);
        assert(outcomes(count - 1));
    }
}

/// A checkout in which nothing fails spends all stored value, then authorises every tender,
/// keeps the order under the key of the request, and ends with the order placed.
pub proof fn law_success_places_the_order(
    outcomes: spec_fn(int) -> bool,
    tenders: usize,
    payments: usize,
    index: int,
)
    requires
        forall|i: int| #[trigger] outcomes(i),
    ensures
        0 <= index < tenders ==> CheckoutStep::Claim.reached(
            outcomes,
            tenders,
            payments,
            3 + index,
        ) == CheckoutStep::Redeem(index as usize),
        0 <= index < tenders ==> CheckoutStep::Claim.reached(
            outcomes,
            tenders,
            payments,
            3 + tenders + index,
        ) == CheckoutStep::Authorize(index as usize),
        CheckoutStep::Claim.reached(outcomes, tenders, payments, 2 * tenders + 4)
            == CheckoutStep::Complete,
        CheckoutStep::Claim.reached(outcomes, tenders, payments, 2 * tenders + 5)
            == CheckoutStep::Placed,
{
    if 0 <= index < tenders {
        lemma_progress(outcomes, tenders, payments, 3 + index);
        lemma_progress(outcomes, tenders, payments, 3 + tenders + index);
    }
    lemma_progress(outcomes, tenders, payments, 2 * tenders + 4);
    lemma_progress(outcomes, tenders, payments, 2 * tenders + 5);
}

proof fn lemma_replays_do_nothing(
    step: CheckoutStep,
    outcomes: spec_fn(int) -> bool,
    tenders: usize,
    payments: usize,
    count: int,
)
    requires
        step is Replay || step is Replayed || step is Failed,
    ensures
        ({
            let next = step.reached(outcomes, tenders, payments, count);
            next is Replay || next is Replayed || next is Failed
        }),
    decreases count,
{
    if count > 0 {
        lemma_replays_do_nothing(step, outcomes, tenders, payments, count - 1);
    }
}

/// A checkout that ends as failed has released the key of its request, or had not claimed
/// it: the only steps that lead there are the release itself, a claim that was not
/// granted, and a replay.
pub proof fn law_failed_checkouts_release_their_key(
    step: CheckoutStep,
    succeeded: bool,
    tenders: usize,
    payments: usize,
)
    requires
        step.following(succeeded, tenders, payments) is Failed,
        !(step is Failed),
    ensures
        step is Forget || step is Claim || step is Replay,
{
}

/// An order is placed only after it was kept under the key of its request.
pub proof fn law_placed_orders_keep_their_key(
    step: CheckoutStep,
    succeeded: bool,
    tenders: usize,
    payments: usize,
)
    requires
        step.following(succeeded, tenders, payments) is Placed,
        !(step is Placed),
    ensures
        step is Complete,
{
}

/// A checkout is idempotent given the same key. Once a run of a request has kept its order
/// under the key, every later run is led to that order and takes no step that saves, spends
/// or charges anything; while the first run is at work, a second one does nothing; and
/// once a run has failed and released the key, the request can be made anew.
///
/// `entries` is what the store of keys holds before the first run, `answer` is what it
/// answers that run, and `later` is any state of the store in which the entry of the key is
/// still what the first run left.
pub proof fn law_checkouts_are_idempotent(
    entries: Map<Seq<char>, EntryView>,
    key: Seq<char>,
    fingerprint: Seq<char>,
    answer: Result<IdempotencyOutcome, Error>,
    order: Seq<char>,
    later: Map<Seq<char>, EntryView>,
    meanwhile: Result<IdempotencyOutcome, Error>,
    again: Result<IdempotencyOutcome, Error>,
    retried: Result<IdempotencyOutcome, Error>,
    outcomes: spec_fn(int) -> bool,
    tenders: usize,
    payments: usize,
    count: int,
)
    requires
        tells(claim(entries, key, fingerprint), key, answer),
        CheckoutStep::after_answer(answer) is Open,
        later.contains_key(key),
        later[key] == after_completion(after_claim(entries, key, fingerprint), key, order)[key],
        tells(claim(after_claim(entries, key, fingerprint), key, fingerprint), key, meanwhile),
        tells(claim(later, key, fingerprint), key, again),
        tells(
            claim(after_claim(entries, key, fingerprint).remove(key), key, fingerprint),
            key,
            retried,
        ),
    ensures
        again matches Ok(IdempotencyOutcome::Completed(text)) && text@ == order,
        CheckoutStep::after_answer(again) is Replay,
        !CheckoutStep::after_answer(again).reached(outcomes, tenders, payments, count).acts(),
        CheckoutStep::after_answer(meanwhile) is Failed,
        !CheckoutStep::after_answer(meanwhile).reached(outcomes, tenders, payments, count).acts(),
        CheckoutStep::after_answer(retried) is Open,
{
    lemma_replays_do_nothing(
        CheckoutStep::after_answer(again),
        outcomes,
        tenders,
        payments,
        count,
    );
    lemma_replays_do_nothing(
        CheckoutStep::after_answer(meanwhile),
        outcomes,
        tenders,
        payments,
        count,
    );
}

/// A new key starts a checkout, a finished one replays it, and a key in use or out of order
/// stops it before anything is done.
pub proof fn law_keys_decide_how_to_start(answer: Result<IdempotencyOutcome, Error>)
    ensures
        CheckoutStep::after_answer(answer) is Open <==> answer is Ok && answer->Ok_0 is Started,
        CheckoutStep::after_answer(answer) is Replay <==> answer is Ok
            && answer->Ok_0 is Completed,
        CheckoutStep::after_answer(answer) is Failed <==> answer is Err || answer->Ok_0 is InFlight,
{
}

/// An order is neither redeemed nor charged before it was saved, and one that could not be
/// opened or saved unwinds nothing.
pub proof fn law_nothing_is_charged_unsaved(
    step: CheckoutStep,
    succeeded: bool,
    tenders: usize,
    payments: usize,
)
    ensures
        ({
            let next = step.following(succeeded, tenders, payments);
            &&& next is Redeem ==> succeeded && (step is SaveOrder || step is Redeem)
            &&& next is Authorize ==> succeeded && (step is SaveOrder || step is Redeem
                || step is Authorize)
            &&& next is Conclude ==> succeeded && (step is SaveOrder || step is Redeem
                || step is Authorize)
            &&& next is SaveOrder ==> succeeded && step is Open
            &&& next is Complete ==> succeeded && step is Conclude
            &&& next is Placed ==> step is Complete || step is Placed
            &&& (step is Open || step is SaveOrder) && !succeeded ==> next is Forget
        }),
{
}

} // verus!
