//! The gateway abstraction.
//!
//! Everything above this module — pricing, splits, refunds, orders — is written
//! against the normalised requests and responses in this module and never against
//! a specific provider. Adapters translate the requests into their provider's API
//! and normalise the responses (error and decline codes too) on the way back.
//!
//! Providers differ in what they can do, so an adapter also advertises its
//! [`Capabilities`]. The engine checks capabilities *before* attempting an
//! operation and fails with [`Error::UnsupportedCapability`] rather than
//! discovering the limitation halfway through a payment.

pub mod http;
pub mod json;
pub mod mock;
pub mod paypal;
pub mod registry;
pub mod stripe;

pub use registry::{GatewayRecord, GatewayRegistry, RoutingContext, RoutingRule};

use vstd::prelude::*;

use crate::collections::OrderedMap;
use crate::error::{outcome, Error, ErrorView};
use crate::folds::lemma_error_stays;
use crate::gateway::json::{optional_content, JsonView};
use crate::ids::{AccountId, CustomerId, OrderId};
use crate::money::{Currency, Money};
use crate::payment::method::{ChargeInitiator, PaymentMethodRef};
use crate::sums::sum;
use crate::text::{join3, optional_text, same_text, trim, trimmed};
use crate::time::{Duration, Timestamp};
use crate::Metadata;

verus! {

/// Identifies a gateway adapter, e.g. `"stripe"`.
#[derive(Debug, PartialEq, Eq, Hash, PartialOrd, Ord)]
pub struct GatewayId(String);

impl View for GatewayId {
    type V = Seq<char>;

    closed spec fn view(&self) -> Seq<char> {
        self.0@
    }
}

impl Clone for GatewayId {
    fn clone(&self) -> (id: Self)
        ensures
            id == *self,
    {
        GatewayId(self.0.clone())
    }
}

impl GatewayId {
    /// Build from a literal.
    pub fn from_static(id: &'static str) -> (made: Self)
        ensures
            made@ == id@,
    {
        GatewayId(id.to_owned())
    }

    /// Build from any text.
    pub fn new(id: &str) -> (made: Self)
        ensures
            made@ == id@,
    {
        GatewayId(id.to_owned())
    }

    /// The identifier as a string slice.
    pub fn as_str(&self) -> (text: &str)
        ensures
            text@ == self@,
    {
        self.0.as_str()
    }

    /// The identifier as text.
    pub fn to_text(&self) -> (text: String)
        ensures
            text@ == self@,
    {
        self.0.clone()
    }

    /// Whether two identifiers are the same.
    pub fn same(&self, other: &Self) -> (same: bool)
        ensures
            same == (self@ == other@),
    {
        same_text(self.0.as_str(), other.0.as_str())
    }
}

/// What a gateway adapter can do.
///
/// Optional features are opt-in: a new adapter that leaves everything at its
/// default is treated as a simple charge-only processor, which is always safe.
#[derive(Debug, Clone, PartialEq, Eq)]
pub struct Capabilities {
    /// Supports authorising now and capturing later.
    pub delayed_capture: bool,
    /// Supports capturing less than the authorised amount.
    pub partial_capture: bool,
    /// Supports several captures against one authorisation.
    pub multi_capture: bool,
    /// Supports refunds.
    pub refunds: bool,
    /// Supports refunding part of a charge.
    pub partial_refunds: bool,
    /// Supports paying out to connected sub-accounts (marketplaces).
    pub connected_accounts: bool,
    /// Supports taking a platform fee out of a charge.
    pub application_fees: bool,
    /// Supports vaulting instruments for later off-session use.
    pub stored_credentials: bool,
    /// Emits verifiable webhooks.
    pub webhooks: bool,
    /// Reports disputes/chargebacks.
    pub disputes: bool,
    /// Supports 3-D Secure / SCA step-up.
    pub three_d_secure: bool,
    /// How long an authorisation stays valid.
    pub authorization_validity: Duration,
    /// Codes of the currencies the adapter accepts; empty means "any".
    pub currencies: OrderedMap<()>,
}

impl Default for Capabilities {
    fn default() -> (capabilities: Self)
        ensures
            !capabilities.delayed_capture,
            !capabilities.partial_capture,
            !capabilities.multi_capture,
            capabilities.refunds,
            !capabilities.partial_refunds,
            !capabilities.connected_accounts,
            !capabilities.application_fees,
            !capabilities.stored_credentials,
            !capabilities.webhooks,
            !capabilities.disputes,
            !capabilities.three_d_secure,
            capabilities.authorization_validity == (Duration { seconds: 604_800, nanos: 0 }),
            capabilities.currencies@ == Map::<Seq<char>, ()>::empty(),
    {
        Capabilities {
            delayed_capture: false,
            partial_capture: false,
            multi_capture: false,
            refunds: true,
            partial_refunds: false,
            connected_accounts: false,
            application_fees: false,
            stored_credentials: false,
            webhooks: false,
            disputes: false,
            three_d_secure: false,
            authorization_validity: Duration::days(7),
            currencies: OrderedMap::new(),
        }
    }
}

impl Capabilities {
    /// A capability set with everything enabled, for full-featured adapters.
    pub fn full() -> (capabilities: Self)
        ensures
            capabilities.delayed_capture,
            capabilities.partial_capture,
            capabilities.multi_capture,
            capabilities.refunds,
            capabilities.partial_refunds,
            capabilities.connected_accounts,
            capabilities.application_fees,
            capabilities.stored_credentials,
            capabilities.webhooks,
            capabilities.disputes,
            capabilities.three_d_secure,
            capabilities.authorization_validity == (Duration { seconds: 604_800, nanos: 0 }),
            capabilities.currencies@ == Map::<Seq<char>, ()>::empty(),
    {
        Capabilities {
            delayed_capture: true,
            partial_capture: true,
            multi_capture: true,
            refunds: true,
            partial_refunds: true,
            connected_accounts: true,
            application_fees: true,
            stored_credentials: true,
            webhooks: true,
            disputes: true,
            three_d_secure: true,
            authorization_validity: Duration::days(7),
            currencies: OrderedMap::new(),
        }
    }

    /// Whether the adapter handles a currency.
    pub open spec fn accepts(self, currency: Currency) -> bool {
        self.currencies@ == Map::<Seq<char>, ()>::empty() || self.currencies@.contains_key(
            currency.letters(),
        )
    }

    /// Whether the adapter has a capability; `None` when there is none of that name.
    pub open spec fn offers(self, capability: Seq<char>) -> Option<bool> {
        if capability == "delayed_capture"@ {
            Some(self.delayed_capture)
        } else if capability == "partial_capture"@ {
            Some(self.partial_capture)
        } else if capability == "multi_capture"@ {
            Some(self.multi_capture)
        } else if capability == "refunds"@ {
            Some(self.refunds)
        } else if capability == "partial_refunds"@ {
            Some(self.partial_refunds)
        } else if capability == "connected_accounts"@ {
            Some(self.connected_accounts)
        } else if capability == "application_fees"@ {
            Some(self.application_fees)
        } else if capability == "stored_credentials"@ {
            Some(self.stored_credentials)
        } else if capability == "webhooks"@ {
            Some(self.webhooks)
        } else if capability == "disputes"@ {
            Some(self.disputes)
        } else if capability == "three_d_secure"@ {
            Some(self.three_d_secure)
        } else {
            None
        }
    }

    /// What requiring a capability of a gateway returns.
    pub open spec fn required(self, gateway: Seq<char>, capability: Seq<char>) -> Result<
        (),
        ErrorView,
    > {
        match self.offers(capability) {
            None => Err(
                ErrorView::Configuration("unknown capability '"@ + capability + "'"@),
            ),
            Some(available) => if available {
                Ok(())
            } else {
                Err(ErrorView::UnsupportedCapability { gateway, capability })
            },
        }
    }

    /// Whether the adapter handles `currency`.
    pub fn supports_currency(&self, currency: Currency) -> (supported: bool)
        ensures
            supported == self.accepts(currency),
    {
        self.currencies.is_empty() || self.currencies.contains_key(currency.code().as_str())
    }

    /// Assert a named capability, producing a precise error when it is missing.
    pub fn require(&self, gateway: &GatewayId, capability: &'static str) -> (available: Result<
        (),
        Error,
    >)
        ensures
            outcome(available) == self.required(gateway@, capability@),
    {
        let available = if same_text(capability, "delayed_capture") {
            self.delayed_capture
        } else if same_text(capability, "partial_capture") {
            self.partial_capture
        } else if same_text(capability, "multi_capture") {
            self.multi_capture
        } else if same_text(capability, "refunds") {
            self.refunds
        } else if same_text(capability, "partial_refunds") {
            self.partial_refunds
        } else if same_text(capability, "connected_accounts") {
            self.connected_accounts
        } else if same_text(capability, "application_fees") {
            self.application_fees
        } else if same_text(capability, "stored_credentials") {
            self.stored_credentials
        } else if same_text(capability, "webhooks") {
            self.webhooks
        } else if same_text(capability, "disputes") {
            self.disputes
        } else if same_text(capability, "three_d_secure") {
            self.three_d_secure
        } else {
            return Err(
                Error::configuration(join3("unknown capability '", capability, "'").as_str()),
            );
        };
        if available {
            Ok(())
        } else {
            Err(Error::UnsupportedCapability { gateway: gateway.to_text(), capability })
        }
    }
}

/// Whether funds should be captured immediately or held.
#[derive(Debug, Clone, Copy, PartialEq, Eq, Structural)]
pub enum CaptureMode {
    /// Authorise and capture in one call.
    Automatic,
    /// Authorise only; capture later (delivery, fulfilment, confirmation).
    Manual,
}

impl Default for CaptureMode {
    fn default() -> (mode: Self)
        ensures
            mode == CaptureMode::Automatic,
    {
        CaptureMode::Automatic
    }
}

/// A reference to the instrument to charge.
#[derive(Debug, PartialEq)]
pub enum InstrumentRef {
    /// A single-use token produced by the gateway's client SDK.
    SingleUseToken {
        /// The token.
        token: String,
    },
    /// A vaulted instrument belonging to a customer ("card on file").
    Vaulted {
        /// The gateway's instrument token.
        token: String,
        /// The gateway's customer identifier.
        customer_token: String,
    },
}

impl Clone for InstrumentRef {
    fn clone(&self) -> (instrument: Self)
        ensures
            instrument == *self,
    {
        match self {
            InstrumentRef::SingleUseToken { token } => InstrumentRef::SingleUseToken {
                token: token.clone(),
            },
            InstrumentRef::Vaulted { token, customer_token } => InstrumentRef::Vaulted {
                token: token.clone(),
                customer_token: customer_token.clone(),
            },
        }
    }
}

impl InstrumentRef {
    /// The token of the instrument.
    pub open spec fn token_text(self) -> Seq<char> {
        match self {
            InstrumentRef::SingleUseToken { token } => token@,
            InstrumentRef::Vaulted { token, .. } => token@,
        }
    }

    /// Build a reference from a stored payment method.
    pub fn from_stored(method: &PaymentMethodRef) -> (instrument: Result<Self, Error>)
        ensures
            instrument == Ok::<InstrumentRef, Error>(
                match method.gateway_customer_id {
                    Some(customer_token) => InstrumentRef::Vaulted {
                        token: method.gateway_token,
                        customer_token,
                    },
                    None => InstrumentRef::SingleUseToken { token: method.gateway_token },
                },
            ),
    {
        match &method.gateway_customer_id {
            Some(customer_token) => Ok(
                InstrumentRef::Vaulted {
                    token: method.gateway_token.clone(),
                    customer_token: customer_token.clone(),
                },
            ),
            None => Ok(
                InstrumentRef::SingleUseToken { token: method.gateway_token.clone() },
            ),
        }
    }

    /// The instrument token.
    pub fn token(&self) -> (token: &str)
        ensures
            token@ == self.token_text(),
    {
        match self {
            InstrumentRef::SingleUseToken { token } => token.as_str(),
            InstrumentRef::Vaulted { token, .. } => token.as_str(),
        }
    }
}

/// Instruction to route part of a charge to a connected account.
#[derive(Debug, Clone, PartialEq)]
pub struct TransferInstruction {
    /// Destination connected account.
    pub destination: AccountId,
    /// Amount to route.
    pub amount: Money,
    /// Appears on the recipient's statement / reporting.
    pub description: Option<String>,
    /// Groups related transfers for reconciliation.
    pub transfer_group: Option<String>,
}

/// Ask the gateway to place a hold on (or charge) an instrument.
#[derive(Debug, Clone, PartialEq)]
pub struct AuthorizeRequest {
    /// Key that makes retries safe. Required.
    pub idempotency_key: String,
    /// Amount to authorise.
    pub amount: Money,
    /// Instrument to charge.
    pub instrument: InstrumentRef,
    /// Our customer, for reporting and risk.
    pub customer_id: Option<CustomerId>,
    /// The order being paid for.
    pub order_id: Option<OrderId>,
    /// Immediate capture or manual capture.
    pub capture_mode: CaptureMode,
    /// Who initiated the charge; drives stored-credential flags.
    pub initiator: ChargeInitiator,
    /// Splits to connected accounts, if the gateway supports them.
    pub transfers: Vec<TransferInstruction>,
    /// Platform fee retained from the charge.
    pub application_fee: Option<Money>,
    /// Shows on the shopper's statement.
    pub statement_descriptor: Option<String>,
    /// Human description for the gateway dashboard.
    pub description: Option<String>,
    /// URL the shopper returns to after a 3-D Secure challenge.
    pub return_url: Option<String>,
    /// Passed through to the gateway.
    pub metadata: Metadata,
}

/// What the first `n` transfers route in total, or why they may not be made.
pub open spec fn routed(transfers: Seq<TransferInstruction>, currency: Currency, n: int) -> Result<
    Money,
    ErrorView,
>
    decreases n,
{
    if n <= 0 {
        Ok(Money { minor: 0, currency })
    } else {
        match routed(transfers, currency, n - 1) {
            Err(error) => Err(error),
            Ok(before) => if transfers[n - 1].amount.minor < 0 {
                Err(ErrorView::Validation("transfer amounts must be non-negative"@))
            } else {
                before.plus(transfers[n - 1].amount)
            },
        }
    }
}

impl AuthorizeRequest {
    /// What the transfers and the fee route in total.
    pub open spec fn routed_total(self) -> Result<Money, ErrorView> {
        match routed(self.transfers@, self.amount.currency, self.transfers@.len() as int) {
            Err(error) => Err(error),
            Ok(transferred) => match self.application_fee {
                None => Ok(transferred),
                Some(fee) => if fee.minor < 0 {
                    Err(ErrorView::Validation("application fee must be non-negative"@))
                } else {
                    transferred.plus(fee)
                },
            },
        }
    }

    /// Whether the request is consistent, and otherwise why not.
    pub open spec fn check(self) -> Result<(), ErrorView> {
        if trimmed(self.idempotency_key@).len() == 0 {
            Err(ErrorView::Validation("an idempotency key is required"@))
        } else if self.amount.minor <= 0 {
            Err(ErrorView::Validation("authorization amount must be positive"@))
        } else {
            match self.routed_total() {
                Err(error) => Err(error),
                Ok(all) => if all.more_than(self.amount) {
                    Err(
                        ErrorView::Validation(
                            "transfers plus fees ("@ + all.text()
                                + ") exceed the authorized amount ("@ + self.amount.text() + ")"@,
                        ),
                    )
                } else {
                    Ok(())
                },
            }
        }
    }

    /// Minimal request: charge `amount` on `instrument`.
    pub fn new(idempotency_key: &str, amount: Money, instrument: InstrumentRef) -> (request: Self)
        ensures
            request.idempotency_key@ == idempotency_key@,
            request.amount == amount,
            request.instrument == instrument,
            request.customer_id is None,
            request.order_id is None,
            request.capture_mode == CaptureMode::Automatic,
            request.initiator == ChargeInitiator::CustomerOnSession,
            request.transfers@.len() == 0,
            request.application_fee is None,
            request.statement_descriptor is None,
            request.description is None,
            request.return_url is None,
            request.metadata@ == Map::<Seq<char>, String>::empty(),
    {
        AuthorizeRequest {
            idempotency_key: idempotency_key.to_owned(),
            amount,
            instrument,
            customer_id: None,
            order_id: None,
            capture_mode: CaptureMode::Automatic,
            initiator: ChargeInitiator::CustomerOnSession,
            transfers: Vec::new(),
            application_fee: None,
            statement_descriptor: None,
            description: None,
            return_url: None,
            metadata: Metadata::new(),
        }
    }

    /// Builder: hold the funds instead of capturing them.
    pub fn manual_capture(self) -> (request: Self)
        ensures
            request == (AuthorizeRequest { capture_mode: CaptureMode::Manual, ..self }),
    {
        AuthorizeRequest { capture_mode: CaptureMode::Manual, ..self }
    }

    /// Builder: attach the order.
    pub fn for_order(self, order_id: OrderId) -> (request: Self)
        ensures
            request == (AuthorizeRequest { order_id: Some(order_id), ..self }),
    {
        AuthorizeRequest { order_id: Some(order_id), ..self }
    }

    /// Builder: attach split instructions.
    pub fn with_transfers(self, transfers: Vec<TransferInstruction>) -> (request: Self)
        ensures
            request == (AuthorizeRequest { transfers, ..self }),
    {
        AuthorizeRequest { transfers, ..self }
    }

    /// Builder: retain a platform fee.
    pub fn with_application_fee(self, fee: Money) -> (request: Self)
        ensures
            request == (AuthorizeRequest { application_fee: Some(fee), ..self }),
    {
        AuthorizeRequest { application_fee: Some(fee), ..self }
    }

    /// Validate internal consistency before hitting the network.
    pub fn validate(&self) -> (valid: Result<(), Error>)
        ensures
            outcome(valid) == self.check(),
    {
        let key = trim(self.idempotency_key.as_str());
        if key.as_str().is_empty() {
            return Err(Error::validation("an idempotency key is required"));
        }
        if !self.amount.is_positive() {
            return Err(Error::validation("authorization amount must be positive"));
        }
        let currency = self.amount.currency();
        let ghost list = self.transfers@;
        let mut all = Money::zero(currency);
        let mut n: usize = 0;
        while n < self.transfers.len()
            invariant
                list == self.transfers@,
                currency == self.amount.currency,
                trimmed(self.idempotency_key@).len() > 0,
                self.amount.minor > 0,
                n <= list.len(),
                routed(list, currency, n as int) == Ok::<Money, ErrorView>(all),
            decreases list.len() - n,
        {
            proof {
                if routed(list, currency, n + 1) is Err {
                    lemma_error_stays(|k: int| routed(list, currency, k), n + 1, list.len() as int);
                }
            }
            if self.transfers[n].amount.is_negative() {
                return Err(Error::validation("transfer amounts must be non-negative"));
            }
            all = match all.try_add(self.transfers[n].amount) {
                Ok(sum) => sum,
                Err(error) => return Err(error),
            };
            n += 1;
        }
        if let Some(fee) = self.application_fee {
            if fee.is_negative() {
                return Err(Error::validation("application fee must be non-negative"));
            }
            all = match all.try_add(fee) {
                Ok(sum) => sum,
                Err(error) => return Err(error),
            };
        }
        if all.exceeds(self.amount) {
            let mut message = join3(
                "transfers plus fees (",
                all.to_text().as_str(),
                ") exceed the authorized amount (",
            );
            message.append(self.amount.to_text().as_str());
            message.append(")");
            return Err(Error::validation(message.as_str()));
        }
        Ok(())
    }
}

/// No more than the authorised amount is routed by a valid request.
pub proof fn law_routing_stays_within_the_charge(request: AuthorizeRequest)
    requires
        request.check() is Ok,
    ensures
        request.routed_total() matches Ok(all) && 0 <= all.minor <= request.amount.minor
            && all.currency == request.amount.currency,
{
    lemma_routed_sign(
        request.transfers@,
        request.amount.currency,
        request.transfers@.len() as int,
    );
}

proof fn lemma_routed_sign(transfers: Seq<TransferInstruction>, currency: Currency, n: int)
    requires
        routed(transfers, currency, n) is Ok,
    ensures
        routed(transfers, currency, n)->Ok_0.minor >= 0,
        routed(transfers, currency, n)->Ok_0.currency == currency,
    decreases n,
{
    if n > 0 {
        lemma_routed_sign(transfers, currency, n - 1);
    }
}

/// State of a charge at the gateway.
#[derive(Debug, Clone, Copy, PartialEq, Eq, Hash, Structural)]
pub enum TransactionStatus {
    /// The shopper must complete an action (3-D Secure, redirect).
    RequiresAction,
    /// Funds are held but not taken.
    Authorized,
    /// Funds have been taken in full.
    Captured,
    /// Some of the authorised amount has been taken.
    PartiallyCaptured,
    /// The hold was released without taking funds.
    Canceled,
    /// The charge failed or was declined.
    Failed,
    /// Waiting on an asynchronous method (bank debit, voucher).
    Pending,
}

impl TransactionStatus {
    /// The name of the status.
    pub open spec fn name(self) -> Seq<char> {
        match self {
            TransactionStatus::RequiresAction => "RequiresAction"@,
            TransactionStatus::Authorized => "Authorized"@,
            TransactionStatus::Captured => "Captured"@,
            TransactionStatus::PartiallyCaptured => "PartiallyCaptured"@,
            TransactionStatus::Canceled => "Canceled"@,
            TransactionStatus::Failed => "Failed"@,
            TransactionStatus::Pending => "Pending"@,
        }
    }

    /// The name of the status.
    pub fn as_str(self) -> (name: &'static str)
        ensures
            name@ == self.name(),
    {
        match self {
            TransactionStatus::RequiresAction => "RequiresAction",
            TransactionStatus::Authorized => "Authorized",
            TransactionStatus::Captured => "Captured",
            TransactionStatus::PartiallyCaptured => "PartiallyCaptured",
            TransactionStatus::Canceled => "Canceled",
            TransactionStatus::Failed => "Failed",
            TransactionStatus::Pending => "Pending",
        }
    }

    /// Whether money has moved.
    pub fn has_funds(self) -> (funds: bool)
        ensures
            funds == (self is Captured || self is PartiallyCaptured),
    {
        match self {
            TransactionStatus::Captured | TransactionStatus::PartiallyCaptured => true,
            _ => false,
        }
    }

    /// Whether the transaction can no longer change.
    pub fn is_terminal(self) -> (terminal: bool)
        ensures
            terminal == (self is Canceled || self is Failed),
    {
        match self {
            TransactionStatus::Canceled | TransactionStatus::Failed => true,
            _ => false,
        }
    }
}

/// What the shopper must do next.
#[derive(Debug, PartialEq)]
pub enum NextAction {
    /// Send the shopper to a URL (3-D Secure, PayPal approval).
    Redirect {
        /// Where to send them.
        url: String,
    },
    /// Hand a client secret to the gateway's client SDK.
    UseSdk {
        /// Opaque client-side secret.
        client_secret: String,
    },
    /// Display instructions (voucher, bank transfer reference).
    DisplayInstructions {
        /// Instruction text.
        instructions: String,
    },
}

impl Clone for NextAction {
    fn clone(&self) -> (action: Self)
        ensures
            action == *self,
    {
        match self {
            NextAction::Redirect { url } => NextAction::Redirect { url: url.clone() },
            NextAction::UseSdk { client_secret } => NextAction::UseSdk {
                client_secret: client_secret.clone(),
            },
            NextAction::DisplayInstructions { instructions } => NextAction::DisplayInstructions {
                instructions: instructions.clone(),
            },
        }
    }
}

/// The gateway's answer to an authorisation.
#[derive(Debug, Clone, PartialEq)]
pub struct AuthorizeResponse {
    /// The gateway's transaction identifier. Store it: every later operation
    /// (capture, cancel, refund) references it.
    pub transaction_id: String,
    /// Current status.
    pub status: TransactionStatus,
    /// Amount actually authorised.
    pub amount_authorized: Money,
    /// Amount already captured (non-zero for automatic capture).
    pub amount_captured: Money,
    /// When the hold lapses, if the gateway reports it.
    pub expires_at: Option<Timestamp>,
    /// Pending shopper action.
    pub next_action: Option<NextAction>,
    /// Network/processor detail for reconciliation.
    pub processor_reference: Option<String>,
    /// Provider payload, retained for support and audit.
    pub raw: Option<serde_json::Value>,
}

/// Take funds from an existing authorisation.
#[derive(Debug, Clone, PartialEq)]
pub struct CaptureRequest {
    /// Idempotency key.
    pub idempotency_key: String,
    /// The authorisation to capture.
    pub transaction_id: String,
    /// Amount to take; must not exceed the remaining authorised amount.
    pub amount: Money,
    /// When `true`, release any uncaptured remainder afterwards.
    pub final_capture: bool,
}

/// The result of a capture.
#[derive(Debug, Clone, PartialEq)]
pub struct CaptureResponse {
    /// Gateway identifier for this capture.
    pub capture_reference: String,
    /// Status of the parent transaction afterwards.
    pub status: TransactionStatus,
    /// Amount taken by this capture.
    pub amount_captured: Money,
    /// Total captured against the transaction so far.
    pub total_captured: Money,
    /// Provider payload.
    pub raw: Option<serde_json::Value>,
}

/// Release an authorisation without taking funds.
#[derive(Debug, Clone, PartialEq)]
pub struct CancelRequest {
    /// Idempotency key.
    pub idempotency_key: String,
    /// Transaction to void.
    pub transaction_id: String,
    /// Optional reason for the gateway dashboard.
    pub reason: Option<String>,
}

/// Why money is being returned.
#[derive(Debug, Clone, Copy, PartialEq, Eq, Structural)]
pub enum RefundReason {
    /// Shopper changed their mind.
    RequestedByCustomer,
    /// Goods could not be supplied.
    Unavailable,
    /// Order was cancelled before fulfilment.
    OrderCanceled,
    /// Suspected fraud.
    Fraudulent,
    /// Charged in error.
    Duplicate,
    /// Anything else.
    Other,
}

impl Default for RefundReason {
    fn default() -> (reason: Self)
        ensures
            reason == RefundReason::RequestedByCustomer,
    {
        RefundReason::RequestedByCustomer
    }
}

/// Return funds to the shopper.
#[derive(Debug, Clone, PartialEq)]
pub struct GatewayRefundRequest {
    /// Idempotency key.
    pub idempotency_key: String,
    /// The charge to refund.
    pub transaction_id: String,
    /// Amount to return.
    pub amount: Money,
    /// Reason code.
    pub reason: RefundReason,
    /// Pull the money back from connected accounts proportionally.
    pub reverse_transfers: bool,
    /// Also refund the platform fee.
    pub refund_application_fee: bool,
    /// Passed through to the gateway.
    pub metadata: Metadata,
}

/// The result of a refund.
#[derive(Debug, Clone, PartialEq)]
pub struct GatewayRefundResponse {
    /// Gateway identifier for the refund.
    pub refund_reference: String,
    /// Amount returned.
    pub amount: Money,
    /// Whether the refund has settled or is still pending.
    pub status: RefundStatus,
    /// Provider payload.
    pub raw: Option<serde_json::Value>,
}

/// Lifecycle of a refund at the gateway.
#[derive(Debug, Clone, Copy, PartialEq, Eq, Structural)]
pub enum RefundStatus {
    /// Submitted, not yet settled.
    Pending,
    /// Money is on its way back to the shopper.
    Succeeded,
    /// The gateway rejected the refund.
    Failed,
    /// The refund was reversed (e.g. the bank returned it).
    Canceled,
}

/// Register or look up a customer at the gateway.
#[derive(Debug, Clone, PartialEq)]
pub struct CustomerRequest {
    /// Our customer identifier.
    pub customer_id: CustomerId,
    /// Contact email.
    pub email: Option<String>,
    /// Display name.
    pub name: Option<String>,
    /// Passed through.
    pub metadata: Metadata,
}

/// Vault an instrument against a gateway customer.
#[derive(Debug, Clone, PartialEq)]
pub struct VaultRequest {
    /// Our customer.
    pub customer_id: CustomerId,
    /// The gateway's customer identifier.
    pub gateway_customer_id: String,
    /// A single-use token from the gateway's client SDK.
    pub setup_token: String,
    /// Explicit consent for future off-session charges.
    pub allow_off_session: bool,
    /// Passed through.
    pub metadata: Metadata,
}

/// A normalised asynchronous notification from a gateway.
#[derive(Debug, Clone, PartialEq)]
pub struct GatewayEvent {
    /// Provider's event id; used for deduplication.
    pub provider_event_id: String,
    /// Which gateway sent it.
    pub gateway: GatewayId,
    /// Normalised event type.
    pub kind: GatewayEventKind,
    /// Transaction the event refers to, when applicable.
    pub transaction_id: Option<String>,
    /// Amount involved, when applicable.
    pub amount: Option<Money>,
    /// When the provider says it happened.
    pub occurred_at: Timestamp,
    /// The original payload.
    pub raw: Option<serde_json::Value>,
}

/// Normalised webhook event types.
#[derive(Debug, Clone, PartialEq, Eq)]
pub enum GatewayEventKind {
    /// An authorisation succeeded.
    PaymentAuthorized,
    /// Funds were captured.
    PaymentCaptured,
    /// The charge failed or was declined.
    PaymentFailed,
    /// The authorisation was voided.
    PaymentCanceled,
    /// An authorisation lapsed without capture.
    AuthorizationExpired,
    /// A refund settled.
    RefundSucceeded,
    /// A refund failed.
    RefundFailed,
    /// A chargeback was opened.
    DisputeOpened,
    /// A chargeback was resolved.
    DisputeClosed {
        /// Whether the merchant won.
        won: bool,
    },
    /// A payout to a connected account settled.
    PayoutPaid,
    /// Anything the adapter does not model.
    Unknown {
        /// The provider's own event type.
        provider_type: String,
    },
}

/// What the shopper must do next, as text.
pub ghost enum NextActionView {
    /// Send the shopper to a URL.
    Redirect(Seq<char>),
    /// Hand a client secret to the gateway's client SDK.
    UseSdk(Seq<char>),
    /// Display instructions.
    DisplayInstructions(Seq<char>),
}

impl View for NextAction {
    type V = NextActionView;

    open spec fn view(&self) -> NextActionView {
        match *self {
            NextAction::Redirect { url } => NextActionView::Redirect(url@),
            NextAction::UseSdk { client_secret } => NextActionView::UseSdk(client_secret@),
            NextAction::DisplayInstructions { instructions } => NextActionView::DisplayInstructions(
                instructions@,
            ),
        }
    }
}

/// What the shopper must do next, if anything, as text.
pub open spec fn optional_action(action: Option<NextAction>) -> Option<NextActionView> {
    match action {
        Some(found) => Some(found@),
        None => None,
    }
}

/// The gateway's answer to an authorisation, as text.
pub ghost struct AuthorizeView {
    /// The gateway's transaction identifier.
    pub transaction_id: Seq<char>,
    /// Current status.
    pub status: TransactionStatus,
    /// Amount actually authorised.
    pub amount_authorized: Money,
    /// Amount already captured.
    pub amount_captured: Money,
    /// When the hold lapses, if the gateway reports it.
    pub expires_at: Option<Timestamp>,
    /// Pending shopper action.
    pub next_action: Option<NextActionView>,
    /// Network/processor detail for reconciliation.
    pub processor_reference: Option<Seq<char>>,
    /// Provider payload.
    pub raw: Option<JsonView>,
}

impl View for AuthorizeResponse {
    type V = AuthorizeView;

    open spec fn view(&self) -> AuthorizeView {
        AuthorizeView {
            transaction_id: self.transaction_id@,
            status: self.status,
            amount_authorized: self.amount_authorized,
            amount_captured: self.amount_captured,
            expires_at: self.expires_at,
            next_action: optional_action(self.next_action),
            processor_reference: optional_text(self.processor_reference),
            raw: optional_content(self.raw),
        }
    }
}

/// An answer to an authorisation, or the error in its place.
pub open spec fn authorize_outcome(response: Result<AuthorizeResponse, Error>) -> Result<
    AuthorizeView,
    ErrorView,
> {
    match response {
        Ok(made) => Ok(made@),
        Err(error) => Err(error@),
    }
}

/// The result of a capture, as text.
pub ghost struct CaptureView {
    /// Gateway identifier for this capture.
    pub capture_reference: Seq<char>,
    /// Status of the parent transaction afterwards.
    pub status: TransactionStatus,
    /// Amount taken by this capture.
    pub amount_captured: Money,
    /// Total captured against the transaction so far.
    pub total_captured: Money,
    /// Provider payload.
    pub raw: Option<JsonView>,
}

impl View for CaptureResponse {
    type V = CaptureView;

    open spec fn view(&self) -> CaptureView {
        CaptureView {
            capture_reference: self.capture_reference@,
            status: self.status,
            amount_captured: self.amount_captured,
            total_captured: self.total_captured,
            raw: optional_content(self.raw),
        }
    }
}

/// The result of a capture, or the error in its place.
pub open spec fn capture_outcome(response: Result<CaptureResponse, Error>) -> Result<
    CaptureView,
    ErrorView,
> {
    match response {
        Ok(made) => Ok(made@),
        Err(error) => Err(error@),
    }
}

/// The result of a refund, as text.
pub ghost struct GatewayRefundView {
    /// Gateway identifier for the refund.
    pub refund_reference: Seq<char>,
    /// Amount returned.
    pub amount: Money,
    /// Whether the refund has settled or is still pending.
    pub status: RefundStatus,
    /// Provider payload.
    pub raw: Option<JsonView>,
}

impl View for GatewayRefundResponse {
    type V = GatewayRefundView;

    open spec fn view(&self) -> GatewayRefundView {
        GatewayRefundView {
            refund_reference: self.refund_reference@,
            amount: self.amount,
            status: self.status,
            raw: optional_content(self.raw),
        }
    }
}

/// The result of a refund, or the error in its place.
pub open spec fn gateway_refund_outcome(response: Result<GatewayRefundResponse, Error>) -> Result<
    GatewayRefundView,
    ErrorView,
> {
    match response {
        Ok(made) => Ok(made@),
        Err(error) => Err(error@),
    }
}

/// Normalised webhook event types, as text.
pub ghost enum EventKindView {
    /// An authorisation succeeded.
    PaymentAuthorized,
    /// Funds were captured.
    PaymentCaptured,
    /// The charge failed or was declined.
    PaymentFailed,
    /// The authorisation was voided.
    PaymentCanceled,
    /// An authorisation lapsed without capture.
    AuthorizationExpired,
    /// A refund settled.
    RefundSucceeded,
    /// A refund failed.
    RefundFailed,
    /// A chargeback was opened.
    DisputeOpened,
    /// A chargeback was resolved, in the merchant's favour or not.
    DisputeClosed(bool),
    /// A payout to a connected account settled.
    PayoutPaid,
    /// Anything the adapter does not model.
    Unknown(Seq<char>),
}

impl View for GatewayEventKind {
    type V = EventKindView;

    open spec fn view(&self) -> EventKindView {
        match *self {
            GatewayEventKind::PaymentAuthorized => EventKindView::PaymentAuthorized,
            GatewayEventKind::PaymentCaptured => EventKindView::PaymentCaptured,
            GatewayEventKind::PaymentFailed => EventKindView::PaymentFailed,
            GatewayEventKind::PaymentCanceled => EventKindView::PaymentCanceled,
            GatewayEventKind::AuthorizationExpired => EventKindView::AuthorizationExpired,
            GatewayEventKind::RefundSucceeded => EventKindView::RefundSucceeded,
            GatewayEventKind::RefundFailed => EventKindView::RefundFailed,
            GatewayEventKind::DisputeOpened => EventKindView::DisputeOpened,
            GatewayEventKind::DisputeClosed { won } => EventKindView::DisputeClosed(won),
            GatewayEventKind::PayoutPaid => EventKindView::PayoutPaid,
            GatewayEventKind::Unknown { provider_type } => EventKindView::Unknown(provider_type@),
        }
    }
}

/// A normalised notification, as text.
pub ghost struct EventView {
    /// Provider's event id.
    pub provider_event_id: Seq<char>,
    /// Which gateway sent it.
    pub gateway: Seq<char>,
    /// Normalised event type.
    pub kind: EventKindView,
    /// Transaction the event refers to, when applicable.
    pub transaction_id: Option<Seq<char>>,
    /// Amount involved, when applicable.
    pub amount: Option<Money>,
    /// When the provider says it happened.
    pub occurred_at: Timestamp,
    /// The original payload.
    pub raw: Option<JsonView>,
}

impl View for GatewayEvent {
    type V = EventView;

    open spec fn view(&self) -> EventView {
        EventView {
            provider_event_id: self.provider_event_id@,
            gateway: self.gateway@,
            kind: self.kind@,
            transaction_id: optional_text(self.transaction_id),
            amount: self.amount,
            occurred_at: self.occurred_at,
            raw: optional_content(self.raw),
        }
    }
}

/// A notification, or the error in its place.
pub open spec fn event_outcome(event: Result<GatewayEvent, Error>) -> Result<EventView, ErrorView> {
    match event {
        Ok(made) => Ok(made@),
        Err(error) => Err(error@),
    }
}

/// Every capability goes by its own name.
pub proof fn law_capabilities_have_names(capabilities: Capabilities)
    ensures
        capabilities.offers("delayed_capture"@) == Some(capabilities.delayed_capture),
        capabilities.offers("partial_capture"@) == Some(capabilities.partial_capture),
        capabilities.offers("multi_capture"@) == Some(capabilities.multi_capture),
        capabilities.offers("refunds"@) == Some(capabilities.refunds),
        capabilities.offers("partial_refunds"@) == Some(capabilities.partial_refunds),
        capabilities.offers("connected_accounts"@) == Some(capabilities.connected_accounts),
        capabilities.offers("application_fees"@) == Some(capabilities.application_fees),
        capabilities.offers("stored_credentials"@) == Some(capabilities.stored_credentials),
        capabilities.offers("webhooks"@) == Some(capabilities.webhooks),
        capabilities.offers("disputes"@) == Some(capabilities.disputes),
        capabilities.offers("three_d_secure"@) == Some(capabilities.three_d_secure),
{
    reveal_strlit("delayed_capture");
    reveal_strlit("partial_capture");
    reveal_strlit("multi_capture");
    reveal_strlit("refunds");
    reveal_strlit("partial_refunds");
    reveal_strlit("connected_accounts");
    reveal_strlit("application_fees");
    reveal_strlit("stored_credentials");
    reveal_strlit("webhooks");
    reveal_strlit("disputes");
    reveal_strlit("three_d_secure");
    assert("delayed_capture"@.len() == 15);
    assert("partial_capture"@.len() == 15);
    assert("multi_capture"@.len() == 13);
    assert("refunds"@.len() == 7);
    assert("partial_refunds"@.len() == 15);
    assert("connected_accounts"@.len() == 18);
    assert("application_fees"@.len() == 16);
    assert("stored_credentials"@.len() == 18);
    assert("webhooks"@.len() == 8);
    assert("disputes"@.len() == 8);
    assert("three_d_secure"@.len() == 14);
    assert("delayed_capture"@[0] != "partial_capture"@[0]);
    assert("delayed_capture"@[0] != "partial_refunds"@[0]);
    assert("partial_capture"@[8] != "partial_refunds"@[8]);
    assert("connected_accounts"@[0] != "stored_credentials"@[0]);
    assert("webhooks"@[0] != "disputes"@[0]);
}

/// A capability can be required exactly where the gateway has it.
pub proof fn law_missing_capabilities_are_refused(
    capabilities: Capabilities,
    gateway: Seq<char>,
    capability: Seq<char>,
)
    ensures
        capabilities.required(gateway, capability) is Ok <==> capabilities.offers(capability)
            == Some(true),
{
}

/// A gateway takes every currency when it names none, and otherwise those that it names.
pub proof fn law_named_currencies_are_taken(capabilities: Capabilities, currency: Currency)
    ensures
        (forall|code: Seq<char>| !capabilities.currencies@.contains_key(code))
            ==> capabilities.accepts(currency),
        capabilities.currencies@.contains_key(currency.letters()) ==> capabilities.accepts(
            currency,
        ),
        !capabilities.currencies@.contains_key(currency.letters()) && (exists|code: Seq<char>|
            capabilities.currencies@.contains_key(code)) ==> !capabilities.accepts(currency),
{
    if forall|code: Seq<char>| !capabilities.currencies@.contains_key(code) {
        assert(capabilities.currencies@ =~= Map::<Seq<char>, ()>::empty());
    }
}

proof fn lemma_routed(transfers: Seq<TransferInstruction>, currency: Currency, n: int)
    requires
        0 <= n <= transfers.len(),
        routed(transfers, currency, n) is Ok,
    ensures
        routed(transfers, currency, n)->Ok_0.currency == currency,
        routed(transfers, currency, n)->Ok_0.minor == sum(
            transfers.take(n).map_values(
                |transfer: TransferInstruction| transfer.amount.minor as int,
            ),
        ),
    decreases n,
{
    let plain = |transfer: TransferInstruction| transfer.amount.minor as int;
    if n > 0 {
        lemma_routed(transfers, currency, n - 1);
        assert(transfers.take(n).map_values(plain).drop_last() =~= transfers.take(
            n - 1,
        ).map_values(plain));
    } else {
        assert(transfers.take(0).map_values(plain) =~= Seq::<int>::empty());
    }
}

/// A charge is sent exactly when it has a key, charges something and routes on, with the fee
/// kept back, no more than it charges.
pub proof fn law_charges_cover_what_they_route(request: AuthorizeRequest)
    requires
        request.routed_total() is Ok,
    ensures
        ({
            let transfers = sum(
                request.transfers@.map_values(
                    |transfer: TransferInstruction| transfer.amount.minor as int,
                ),
            );
            let fee: int = if request.application_fee is Some {
                request.application_fee->Some_0.minor as int
            } else {
                0
            };
            &&& request.routed_total()->Ok_0.minor == transfers + fee
            &&& request.check() is Ok <==> trimmed(request.idempotency_key@).len() > 0
                && request.amount.minor > 0 && transfers + fee <= request.amount.minor
        }),
{
    let count = request.transfers@.len() as int;
    lemma_routed(request.transfers@, request.amount.currency, count);
    assert(request.transfers@.take(count) =~= request.transfers@);
}

} // verus!
