//! Disputes and chargebacks.
//!
//! A dispute is a deadline-driven workflow: the acquirer gives you a fixed
//! window to submit evidence, and missing it loses the case by default. The
//! model therefore makes the due date and the evidence bundle first-class.

use vstd::prelude::*;

use crate::cart::next_version;
use crate::collections::OrderedMap;
use crate::error::{outcome, Error, ErrorView};
use crate::gateway::GatewayId;
use crate::ids::{is_generated, DisputeId, OrderId, PaymentId};
use crate::money::Money;
use crate::time::Timestamp;

verus! {

/// Why the cardholder disputed the charge.
#[derive(Debug, Clone, Copy, PartialEq, Eq, Structural)]
pub enum DisputeReason {
    /// The cardholder says they did not authorise the charge.
    Fraudulent,
    /// The goods or services never arrived.
    ProductNotReceived,
    /// What arrived was not what was ordered.
    ProductUnacceptable,
    /// A promised refund never appeared.
    CreditNotProcessed,
    /// The charge appears twice.
    Duplicate,
    /// A recurring charge the cardholder had cancelled.
    SubscriptionCanceled,
    /// Anything else.
    General,
}

impl Default for DisputeReason {
    fn default() -> (reason: Self)
        ensures
            reason == DisputeReason::General,
    {
        DisputeReason::General
    }
}

/// Where a dispute stands.
#[derive(Debug, Clone, Copy, PartialEq, Eq, Structural)]
pub enum DisputeStatus {
    /// The issuer asked for information but has not taken the money yet.
    InquiryOpen,
    /// Funds have been withdrawn pending the outcome.
    NeedsResponse,
    /// Evidence has been submitted; waiting on the issuer.
    UnderReview,
    /// The merchant won; funds are returned.
    Won,
    /// The merchant lost; funds stay with the cardholder.
    Lost,
    /// The merchant chose not to contest.
    Accepted,
}

impl DisputeStatus {
    /// The name of the status.
    pub open spec fn name(self) -> Seq<char> {
        match self {
            DisputeStatus::InquiryOpen => "InquiryOpen"@,
            DisputeStatus::NeedsResponse => "NeedsResponse"@,
            DisputeStatus::UnderReview => "UnderReview"@,
            DisputeStatus::Won => "Won"@,
            DisputeStatus::Lost => "Lost"@,
            DisputeStatus::Accepted => "Accepted"@,
        }
    }

    /// Whether the case is closed.
    pub open spec fn final_state(self) -> bool {
        self is Won || self is Lost || self is Accepted
    }

    /// Whether evidence can still be submitted.
    pub open spec fn contestable(self) -> bool {
        self is InquiryOpen || self is NeedsResponse
    }

    /// The name of the status.
    pub fn as_str(self) -> (name: &'static str)
        ensures
            name@ == self.name(),
    {
        match self {
            DisputeStatus::InquiryOpen => "InquiryOpen",
            DisputeStatus::NeedsResponse => "NeedsResponse",
            DisputeStatus::UnderReview => "UnderReview",
            DisputeStatus::Won => "Won",
            DisputeStatus::Lost => "Lost",
            DisputeStatus::Accepted => "Accepted",
        }
    }

    /// Whether the case is closed.
    pub fn is_terminal(self) -> (terminal: bool)
        ensures
            terminal == self.final_state(),
    {
        match self {
            DisputeStatus::Won | DisputeStatus::Lost | DisputeStatus::Accepted => true,
            _ => false,
        }
    }

    /// Whether evidence can still be submitted.
    pub fn accepts_evidence(self) -> (accepts: bool)
        ensures
            accepts == self.contestable(),
    {
        match self {
            DisputeStatus::InquiryOpen | DisputeStatus::NeedsResponse => true,
            _ => false,
        }
    }
}

/// Documents supporting the merchant's case.
#[derive(Debug, Clone, PartialEq)]
pub struct DisputeEvidence {
    /// Proof the goods were delivered (tracking number, signature).
    pub shipping_documentation: Option<String>,
    /// The receipt sent to the customer.
    pub receipt: Option<String>,
    /// Correspondence with the customer.
    pub customer_communication: Option<String>,
    /// The refund policy the customer accepted.
    pub refund_policy: Option<String>,
    /// Free-form narrative.
    pub explanation: Option<String>,
    /// Provider-specific extra fields.
    pub additional: OrderedMap<String>,
}

impl Default for DisputeEvidence {
    fn default() -> (evidence: Self)
        ensures
            evidence.empty(),
    {
        DisputeEvidence {
            shipping_documentation: None,
            receipt: None,
            customer_communication: None,
            refund_policy: None,
            explanation: None,
            additional: OrderedMap::new(),
        }
    }
}

impl DisputeEvidence {
    /// Whether nothing at all has been supplied.
    pub open spec fn empty(self) -> bool {
        &&& self.shipping_documentation is None
        &&& self.receipt is None
        &&& self.customer_communication is None
        &&& self.refund_policy is None
        &&& self.explanation is None
        &&& self.additional@ == Map::<Seq<char>, String>::empty()
    }

    /// Whether nothing at all has been supplied.
    pub fn is_empty(&self) -> (empty: bool)
        ensures
            empty == self.empty(),
    {
        self.shipping_documentation.is_none() && self.receipt.is_none()
            && self.customer_communication.is_none() && self.refund_policy.is_none()
            && self.explanation.is_none() && self.additional.is_empty()
    }
}

/// A chargeback or pre-dispute inquiry.
#[derive(Debug, Clone, PartialEq)]
pub struct Dispute {
    /// Identifier.
    pub id: DisputeId,
    /// The disputed payment.
    pub payment_id: PaymentId,
    /// The order it belongs to.
    pub order_id: OrderId,
    /// Gateway reporting the dispute.
    pub gateway: GatewayId,
    /// Provider's dispute identifier.
    pub provider_reference: String,
    /// Amount in dispute.
    pub amount: Money,
    /// Non-refundable fee charged by the acquirer.
    pub fee: Option<Money>,
    /// Why the cardholder disputed.
    pub reason: DisputeReason,
    /// Current state.
    pub status: DisputeStatus,
    /// Deadline for submitting evidence.
    pub evidence_due_by: Option<Timestamp>,
    /// Evidence submitted so far.
    pub evidence: DisputeEvidence,
    /// Which shops the disputed amount came from, so losses can be passed on.
    pub shop_allocation: OrderedMap<Money>,
    /// When the dispute was opened.
    pub opened_at: Timestamp,
    /// When it closed.
    pub closed_at: Option<Timestamp>,
    /// Optimistic concurrency token.
    pub version: u64,
}

impl Dispute {
    /// Whether the response window has closed at `now`.
    pub open spec fn overdue(self, now: Timestamp) -> bool {
        match self.evidence_due_by {
            Some(due) => self.status.contestable() && !now.before(due),
            None => false,
        }
    }

    /// The refusal of a step to a state named `to`.
    pub open spec fn no_transition(self, to: Seq<char>) -> ErrorView {
        ErrorView::InvalidTransition {
            kind: "dispute"@,
            id: self.id@,
            from: self.status.name(),
            to,
        }
    }

    /// Open a new dispute.
    pub fn open(
        payment_id: PaymentId,
        order_id: OrderId,
        gateway: GatewayId,
        provider_reference: &str,
        amount: Money,
    ) -> (dispute: Self)
        ensures
            is_generated(dispute.id@, "dp"@),
            dispute.payment_id == payment_id,
            dispute.order_id == order_id,
            dispute.gateway == gateway,
            dispute.provider_reference@ == provider_reference@,
            dispute.amount == amount,
            dispute.fee is None,
            dispute.reason == DisputeReason::General,
            dispute.status == DisputeStatus::NeedsResponse,
            dispute.evidence_due_by is None,
            dispute.evidence.empty(),
            dispute.shop_allocation@ == Map::<Seq<char>, Money>::empty(),
            dispute.closed_at is None,
            dispute.version == 0,
    {
        Dispute {
            id: DisputeId::new(),
            payment_id,
            order_id,
            gateway,
            provider_reference: provider_reference.to_owned(),
            amount,
            fee: None,
            reason: DisputeReason::General,
            status: DisputeStatus::NeedsResponse,
            evidence_due_by: None,
            evidence: DisputeEvidence::default(),
            shop_allocation: OrderedMap::new(),
            opened_at: Timestamp::now(),
            closed_at: None,
            version: 0,
        }
    }

    /// Builder: set the evidence deadline.
    pub fn due_by(self, at: Timestamp) -> (dispute: Self)
        ensures
            dispute == (Dispute { evidence_due_by: Some(at), ..self }),
    {
        Dispute { evidence_due_by: Some(at), ..self }
    }

    /// Whether the response window has closed.
    pub fn is_overdue(&self, now: Timestamp) -> (overdue: bool)
        ensures
            overdue == self.overdue(now),
    {
        match self.evidence_due_by {
            Some(due) => self.status.accepts_evidence() && !now.is_before(due),
            None => false,
        }
    }

    /// What attaching evidence returns and leaves.
    pub open spec fn contested(
        self,
        evidence: DisputeEvidence,
        now: Timestamp,
        after: Dispute,
        done: Result<(), Error>,
    ) -> bool {
        if !self.status.contestable() {
            outcome(done) == Err::<(), ErrorView>(self.no_transition("under_review"@)) && after
                == self
        } else if self.overdue(now) {
            outcome(done) == Err::<(), ErrorView>(
                ErrorView::Validation("the evidence deadline for this dispute has passed"@),
            ) && after == self
        } else if evidence.empty() {
            outcome(done) == Err::<(), ErrorView>(
                ErrorView::Validation("cannot submit an empty evidence bundle"@),
            ) && after == self
        } else {
            done is Ok && after == (Dispute {
                evidence,
                status: DisputeStatus::UnderReview,
                version: next_version(self.version),
                ..self
            })
        }
    }

    /// Attach evidence, rejecting late or pointless submissions.
    pub fn submit_evidence(&mut self, evidence: DisputeEvidence, now: Timestamp) -> (
    done: Result<(), Error>)
        ensures
            old(self).contested(evidence, now, *final(self), done),
    {
        if !self.status.accepts_evidence() {
            return Err(
                Error::invalid_transition(
                    "dispute",
                    self.id.as_str(),
                    self.status.as_str(),
                    "under_review",
                ),
            );
        }
        if self.is_overdue(now) {
            return Err(Error::validation("the evidence deadline for this dispute has passed"));
        }
        if evidence.is_empty() {
            return Err(Error::validation("cannot submit an empty evidence bundle"));
        }
        self.evidence = evidence;
        self.status = DisputeStatus::UnderReview;
        self.version = self.version.saturating_add(1);
        Ok(())
    }

    /// What ending the case in a state returns and leaves.
    pub open spec fn ended(
        self,
        status: DisputeStatus,
        word: Seq<char>,
        now: Timestamp,
        after: Dispute,
        done: Result<(), Error>,
    ) -> bool {
        if self.status.final_state() {
            outcome(done) == Err::<(), ErrorView>(self.no_transition(word)) && after == self
        } else {
            done is Ok && after == (Dispute {
                status,
                closed_at: Some(now),
                version: next_version(self.version),
                ..self
            })
        }
    }

    /// Give up and let the cardholder keep the money.
    pub fn accept(&mut self, now: Timestamp) -> (done: Result<(), Error>)
        ensures
            old(self).ended(DisputeStatus::Accepted, "accepted"@, now, *final(self), done),
    {
        if self.status.is_terminal() {
            return Err(
                Error::invalid_transition(
                    "dispute",
                    self.id.as_str(),
                    self.status.as_str(),
                    "accepted",
                ),
            );
        }
        self.status = DisputeStatus::Accepted;
        self.closed_at = Some(now);
        self.version = self.version.saturating_add(1);
        Ok(())
    }

    /// Record the issuer's decision.
    pub fn close(&mut self, won: bool, now: Timestamp) -> (done: Result<(), Error>)
        ensures
            won ==> old(self).ended(DisputeStatus::Won, "won"@, now, *final(self), done),
            !won ==> old(self).ended(DisputeStatus::Lost, "lost"@, now, *final(self), done),
    {
        let word = if won {
            "won"
        } else {
            "lost"
        };
        if self.status.is_terminal() {
            return Err(
                Error::invalid_transition(
                    "dispute",
                    self.id.as_str(),
                    self.status.as_str(),
                    word,
                ),
            );
        }
        self.status = if won {
            DisputeStatus::Won
        } else {
            DisputeStatus::Lost
        };
        self.closed_at = Some(now);
        self.version = self.version.saturating_add(1);
        Ok(())
    }

    /// What the business loses with the dispute.
    pub open spec fn exposure(self) -> Result<Money, ErrorView> {
        match self.fee {
            Some(fee) => self.amount.plus(fee),
            None => Ok(self.amount),
        }
    }

    /// Total cost to the business if the dispute is lost.
    pub fn total_exposure(&self) -> (exposure: Result<Money, Error>)
        ensures
            outcome(exposure) == self.exposure(),
    {
        match self.fee {
            Some(fee) => self.amount.try_add(fee),
            None => Ok(self.amount),
        }
    }
}

/// Closing is final: a closed dispute refuses every further step and does not change.
pub proof fn law_closing_is_final(
    dispute: Dispute,
    status: DisputeStatus,
    word: Seq<char>,
    now: Timestamp,
    after: Dispute,
    done: Result<(), Error>,
)
    requires
        dispute.status.final_state(),
        dispute.ended(status, word, now, after, done),
    ensures
        done is Err,
        after == dispute,
        !dispute.status.contestable(),
{
}

/// A dispute is closed once it is won, lost or accepted, and open to evidence only while
/// the issuer still waits for it.
pub proof fn law_disputes_wait_for_evidence(status: DisputeStatus)
    ensures
        status.final_state() <==> status is Won || status is Lost || status is Accepted,
        status.contestable() <==> status is InquiryOpen || status is NeedsResponse,
        !(status.final_state() && status.contestable()),
{
}

/// Evidence is late from its deadline on, not before, and only while it is waited for.
pub proof fn law_evidence_is_due_by_its_deadline(dispute: Dispute, now: Timestamp)
    requires
        now.normal(),
        dispute.evidence_due_by is Some ==> dispute.evidence_due_by->Some_0.normal(),
    ensures
        dispute.overdue(now) <==> dispute.status.contestable() && dispute.evidence_due_by is Some
            && dispute.evidence_due_by->Some_0.instant() <= now.instant(),
{
}

/// A bundle with anything in it is evidence.
pub proof fn law_any_document_is_evidence(evidence: DisputeEvidence)
    ensures
        evidence.empty() ==> evidence.shipping_documentation is None && evidence.receipt is None
            && evidence.customer_communication is None && evidence.refund_policy is None
            && evidence.explanation is None && evidence.additional@.dom() =~= Set::<
            Seq<char>,
        >::empty(),
        evidence.shipping_documentation is None && evidence.receipt is None
            && evidence.customer_communication is None && evidence.refund_policy is None
            && evidence.explanation is None && evidence.additional@.dom() =~= Set::<
            Seq<char>,
        >::empty() ==> evidence.empty(),
{
    if evidence.additional@.dom() =~= Set::<Seq<char>>::empty() {
        assert(evidence.additional@ =~= Map::<Seq<char>, String>::empty());
    }
}

/// An open dispute ends as decided, at the time of the decision; the amount at stake stays
/// what it was.
pub proof fn law_open_disputes_can_be_closed(
    dispute: Dispute,
    status: DisputeStatus,
    word: Seq<char>,
    now: Timestamp,
    after: Dispute,
    done: Result<(), Error>,
)
    requires
        dispute.status is InquiryOpen || dispute.status is NeedsResponse
            || dispute.status is UnderReview,
        dispute.ended(status, word, now, after, done),
    ensures
        done is Ok,
        after.status == status,
        after.closed_at == Some(now),
        after.amount == dispute.amount,
        after.fee == dispute.fee,
        after.evidence == dispute.evidence,
{
}

/// Evidence is taken exactly while it is waited for and not late, where there is any; the
/// case is then under review with it.
pub proof fn law_evidence_is_taken_in_time(
    dispute: Dispute,
    evidence: DisputeEvidence,
    now: Timestamp,
    after: Dispute,
    done: Result<(), Error>,
)
    requires
        dispute.contested(evidence, now, after, done),
    ensures
        done is Ok <==> (dispute.status is InquiryOpen || dispute.status is NeedsResponse)
            && !dispute.overdue(now) && !evidence.empty(),
        done is Ok ==> after.status is UnderReview && after.evidence == evidence && after.amount
            == dispute.amount,
        done is Err ==> after == dispute,
{
}

/// A lost dispute costs what is disputed and the fee for it.
pub proof fn law_lost_disputes_cost_amount_and_fee(dispute: Dispute)
    ensures
        dispute.exposure() matches Ok(cost) ==> {
            &&& dispute.fee is Some ==> cost.minor == dispute.amount.minor
                + dispute.fee->Some_0.minor
            &&& dispute.fee is None ==> cost.minor == dispute.amount.minor
            &&& cost.currency == dispute.amount.currency
        },
        dispute.fee is None ==> dispute.exposure() is Ok,
{
}

} // verus!
