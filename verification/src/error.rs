//! The crate-wide error type.
//!
//! Errors carry enough structure for a caller to decide programmatically
//! whether an operation may be retried ([`Error::is_retryable`]) and whether the
//! failure was caused by the caller or by an upstream system
//! ([`Error::category`]). Gateway-specific failures are normalised into
//! [`DeclineCode`].

use vstd::prelude::*;

use crate::money::{Currency, Money};
use crate::text::optional_text;

verus! {

/// Coarse classification used for metrics, alerting and retry policy.
#[derive(Debug, Clone, Copy, PartialEq, Eq, Hash, Structural)]
pub enum ErrorCategory {
    /// The request was malformed or violated a business rule.
    Validation,
    /// The referenced entity does not exist.
    NotFound,
    /// The operation conflicts with the current state of the entity.
    Conflict,
    /// The payment instrument or issuer refused the charge.
    Declined,
    /// The caller is not allowed to perform the operation.
    Authorization,
    /// A downstream dependency failed (gateway, storage, network).
    Upstream,
    /// A defect in configuration, e.g. no gateway registered for a currency.
    Configuration,
    /// An internal invariant was violated.
    Internal,
}

/// Gateway-agnostic decline reasons.
#[derive(Debug, Clone, Copy, PartialEq, Eq, Hash, Structural)]
pub enum DeclineCode {
    /// Generic refusal with no further detail from the issuer.
    GenericDecline,
    /// Not enough funds on the instrument.
    InsufficientFunds,
    /// Card expired.
    ExpiredCard,
    /// Wrong card number.
    IncorrectNumber,
    /// Wrong CVC/CVV.
    IncorrectCvc,
    /// Wrong postal code / AVS failure.
    IncorrectPostalCode,
    /// The issuer flagged the transaction as fraudulent.
    Fraudulent,
    /// The card is reported lost or stolen.
    LostOrStolenCard,
    /// Velocity or amount limit exceeded.
    LimitExceeded,
    /// Strong customer authentication (3-D Secure) is required.
    AuthenticationRequired,
    /// The issuer or gateway is temporarily unavailable; safe to retry.
    ProcessingError,
    /// The instrument does not support this currency or capability.
    Unsupported,
}

impl DeclineCode {
    /// Whether retrying the same instrument could plausibly succeed later.
    pub open spec fn retryable(self) -> bool {
        self is ProcessingError || self is LimitExceeded
    }

    /// The message a shopper may see.
    pub open spec fn shopper_text(self) -> Seq<char> {
        match self {
            DeclineCode::InsufficientFunds => "Your card has insufficient funds."@,
            DeclineCode::ExpiredCard => "Your card has expired."@,
            DeclineCode::IncorrectNumber => "The card number is incorrect."@,
            DeclineCode::IncorrectCvc => "The security code is incorrect."@,
            DeclineCode::IncorrectPostalCode => "The postal code does not match your card."@,
            DeclineCode::AuthenticationRequired =>
                "Your bank requires additional authentication to complete this payment."@,
            DeclineCode::ProcessingError =>
                "We could not process your payment right now. Please try again."@,
            DeclineCode::Unsupported => "This payment method cannot be used for this purchase."@,
            DeclineCode::GenericDecline
            | DeclineCode::Fraudulent
            | DeclineCode::LostOrStolenCard
            | DeclineCode::LimitExceeded =>
                "Your card was declined. Please use a different payment method."@,
        }
    }

    /// The code as a word.
    pub open spec fn word(self) -> Seq<char> {
        match self {
            DeclineCode::GenericDecline => "generic_decline"@,
            DeclineCode::InsufficientFunds => "insufficient_funds"@,
            DeclineCode::ExpiredCard => "expired_card"@,
            DeclineCode::IncorrectNumber => "incorrect_number"@,
            DeclineCode::IncorrectCvc => "incorrect_cvc"@,
            DeclineCode::IncorrectPostalCode => "incorrect_postal_code"@,
            DeclineCode::Fraudulent => "fraudulent"@,
            DeclineCode::LostOrStolenCard => "lost_or_stolen_card"@,
            DeclineCode::LimitExceeded => "limit_exceeded"@,
            DeclineCode::AuthenticationRequired => "authentication_required"@,
            DeclineCode::ProcessingError => "processing_error"@,
            DeclineCode::Unsupported => "unsupported"@,
        }
    }

    /// Whether retrying the same instrument could plausibly succeed later.
    pub fn is_retryable(self) -> (retryable: bool)
        ensures
            retryable == self.retryable(),
    {
        matches!(self, DeclineCode::ProcessingError | DeclineCode::LimitExceeded)
    }

    /// A safe, non-leaking message suitable for showing to a shopper.
    pub fn customer_message(self) -> (message: &'static str)
        ensures
            message@ == self.shopper_text(),
    {
        match self {
            DeclineCode::InsufficientFunds => "Your card has insufficient funds.",
            DeclineCode::ExpiredCard => "Your card has expired.",
            DeclineCode::IncorrectNumber => "The card number is incorrect.",
            DeclineCode::IncorrectCvc => "The security code is incorrect.",
            DeclineCode::IncorrectPostalCode => "The postal code does not match your card.",
            DeclineCode::AuthenticationRequired =>
                "Your bank requires additional authentication to complete this payment.",
            DeclineCode::ProcessingError =>
                "We could not process your payment right now. Please try again.",
            DeclineCode::Unsupported => "This payment method cannot be used for this purchase.",
            // Never tell the shopper the card was flagged as fraudulent or stolen.
            DeclineCode::GenericDecline
            | DeclineCode::Fraudulent
            | DeclineCode::LostOrStolenCard
            | DeclineCode::LimitExceeded =>
                "Your card was declined. Please use a different payment method.",
        }
    }

    /// The code as a word.
    pub fn as_str(self) -> (word: &'static str)
        ensures
            word@ == self.word(),
    {
        match self {
            DeclineCode::GenericDecline => "generic_decline",
            DeclineCode::InsufficientFunds => "insufficient_funds",
            DeclineCode::ExpiredCard => "expired_card",
            DeclineCode::IncorrectNumber => "incorrect_number",
            DeclineCode::IncorrectCvc => "incorrect_cvc",
            DeclineCode::IncorrectPostalCode => "incorrect_postal_code",
            DeclineCode::Fraudulent => "fraudulent",
            DeclineCode::LostOrStolenCard => "lost_or_stolen_card",
            DeclineCode::LimitExceeded => "limit_exceeded",
            DeclineCode::AuthenticationRequired => "authentication_required",
            DeclineCode::ProcessingError => "processing_error",
            DeclineCode::Unsupported => "unsupported",
        }
    }
}

/// The error type returned by every fallible operation in this crate.
#[derive(Debug)]
#[non_exhaustive]
pub enum Error {
    /// A value failed validation before any side effect happened.
    Validation(String),
    /// Arithmetic or parsing problem in the money layer.
    Money(String),
    /// A split or proration could not be computed.
    Allocation(String),
    /// Two amounts in different currencies were combined.
    CurrencyMismatch {
        /// The currency that was expected.
        expected: Currency,
        /// The currency that was supplied.
        actual: Currency,
    },
    /// A currency code is not recognised.
    UnknownCurrency(String),
    /// The requested entity does not exist.
    NotFound {
        /// Entity type, e.g. `"cart"`.
        kind: &'static str,
        /// Identifier that was looked up.
        id: String,
    },
    /// The entity exists but is in a state that forbids the operation.
    InvalidTransition {
        /// Entity type, e.g. `"order"`.
        kind: &'static str,
        /// Identifier of the entity.
        id: String,
        /// Current state.
        from: String,
        /// Attempted state.
        to: String,
    },
    /// A concurrent write was detected (optimistic locking).
    Conflict {
        /// Entity type.
        kind: &'static str,
        /// Identifier of the entity.
        id: String,
        /// Human-readable detail.
        message: String,
    },
    /// The same idempotency key was reused with a different payload.
    IdempotencyConflict {
        /// The offending key.
        key: String,
    },
    /// A tender (gift card, shop credit, gateway charge) could not cover the amount.
    InsufficientFunds {
        /// Which balance ran out.
        source_name: String,
        /// Amount available.
        available: Money,
        /// Amount needed.
        required: Money,
    },
    /// The payment instrument was declined.
    Declined {
        /// Normalised decline reason.
        code: DeclineCode,
        /// Provider-supplied detail (already redacted by the adapter).
        message: String,
    },
    /// The gateway returned an error.
    Gateway {
        /// Gateway identifier, e.g. `"stripe"`.
        gateway: String,
        /// Raw provider error code, when available.
        provider_code: Option<String>,
        /// Provider message.
        message: String,
        /// Whether the caller may safely retry with the same idempotency key.
        retryable: bool,
    },
    /// A webhook signature did not verify.
    WebhookVerification(String),
    /// The storage backend failed.
    Storage(String),
    /// Requested capability is not supported by the selected gateway.
    UnsupportedCapability {
        /// Gateway identifier.
        gateway: String,
        /// Capability name, e.g. `"partial_capture"`.
        capability: &'static str,
    },
    /// The engine is misconfigured.
    Configuration(String),
    /// An internal invariant was violated. This is always a bug in the crate.
    Internal(String),
}

/// An [`Error`] with its texts as character sequences.
pub enum ErrorView {
    /// See [`Error::Validation`].
    Validation(Seq<char>),
    /// See [`Error::Money`].
    Money(Seq<char>),
    /// See [`Error::Allocation`].
    Allocation(Seq<char>),
    /// See [`Error::CurrencyMismatch`].
    CurrencyMismatch {
        /// The currency that was expected.
        expected: Currency,
        /// The currency that was supplied.
        actual: Currency,
    },
    /// See [`Error::UnknownCurrency`].
    UnknownCurrency(Seq<char>),
    /// See [`Error::NotFound`].
    NotFound {
        /// Entity type.
        kind: Seq<char>,
        /// Identifier that was looked up.
        id: Seq<char>,
    },
    /// See [`Error::InvalidTransition`].
    InvalidTransition {
        /// Entity type.
        kind: Seq<char>,
        /// Identifier of the entity.
        id: Seq<char>,
        /// Current state.
        from: Seq<char>,
        /// Attempted state.
        to: Seq<char>,
    },
    /// See [`Error::Conflict`].
    Conflict {
        /// Entity type.
        kind: Seq<char>,
        /// Identifier of the entity.
        id: Seq<char>,
        /// Human-readable detail.
        message: Seq<char>,
    },
    /// See [`Error::IdempotencyConflict`].
    IdempotencyConflict {
        /// The offending key.
        key: Seq<char>,
    },
    /// See [`Error::InsufficientFunds`].
    InsufficientFunds {
        /// Which balance ran out.
        source_name: Seq<char>,
        /// Amount available.
        available: Money,
        /// Amount needed.
        required: Money,
    },
    /// See [`Error::Declined`].
    Declined {
        /// Normalised decline reason.
        code: DeclineCode,
        /// Provider-supplied detail.
        message: Seq<char>,
    },
    /// See [`Error::Gateway`].
    Gateway {
        /// Gateway identifier.
        gateway: Seq<char>,
        /// Raw provider error code.
        provider_code: Option<Seq<char>>,
        /// Provider message.
        message: Seq<char>,
        /// Whether the caller may safely retry.
        retryable: bool,
    },
    /// See [`Error::WebhookVerification`].
    WebhookVerification(Seq<char>),
    /// See [`Error::Storage`].
    Storage(Seq<char>),
    /// See [`Error::UnsupportedCapability`].
    UnsupportedCapability {
        /// Gateway identifier.
        gateway: Seq<char>,
        /// Capability name.
        capability: Seq<char>,
    },
    /// See [`Error::Configuration`].
    Configuration(Seq<char>),
    /// See [`Error::Internal`].
    Internal(Seq<char>),
}

impl View for Error {
    type V = ErrorView;

    open spec fn view(&self) -> ErrorView {
        match *self {
            Error::Validation(message) => ErrorView::Validation(message@),
            Error::Money(message) => ErrorView::Money(message@),
            Error::Allocation(message) => ErrorView::Allocation(message@),
            Error::CurrencyMismatch { expected, actual } => ErrorView::CurrencyMismatch {
                expected,
                actual,
            },
            Error::UnknownCurrency(code) => ErrorView::UnknownCurrency(code@),
            Error::NotFound { kind, id } => ErrorView::NotFound { kind: kind@, id: id@ },
            Error::InvalidTransition { kind, id, from, to } => ErrorView::InvalidTransition {
                kind: kind@,
                id: id@,
                from: from@,
                to: to@,
            },
            Error::Conflict { kind, id, message } => ErrorView::Conflict {
                kind: kind@,
                id: id@,
                message: message@,
            },
            Error::IdempotencyConflict { key } => ErrorView::IdempotencyConflict { key: key@ },
            Error::InsufficientFunds { source_name, available, required } =>
                ErrorView::InsufficientFunds { source_name: source_name@, available, required },
            Error::Declined { code, message } => ErrorView::Declined { code, message: message@ },
            Error::Gateway { gateway, provider_code, message, retryable } => ErrorView::Gateway {
                gateway: gateway@,
                provider_code: optional_text(provider_code),
                message: message@,
                retryable,
            },
            Error::WebhookVerification(message) => ErrorView::WebhookVerification(message@),
            Error::Storage(message) => ErrorView::Storage(message@),
            Error::UnsupportedCapability { gateway, capability } =>
                ErrorView::UnsupportedCapability { gateway: gateway@, capability: capability@ },
            Error::Configuration(message) => ErrorView::Configuration(message@),
            Error::Internal(message) => ErrorView::Internal(message@),
        }
    }
}

/// A result with the texts of its error as character sequences.
pub open spec fn outcome<T>(result: Result<T, Error>) -> Result<T, ErrorView> {
    match result {
        Ok(value) => Ok(value),
        Err(error) => Err(error@),
    }
}

impl ErrorView {
    /// What kind of failure this is.
    pub open spec fn category(self) -> ErrorCategory {
        match self {
            ErrorView::Validation(_)
            | ErrorView::Money(_)
            | ErrorView::Allocation(_)
            | ErrorView::CurrencyMismatch { .. }
            | ErrorView::UnknownCurrency(_)
            | ErrorView::InsufficientFunds { .. } => ErrorCategory::Validation,
            ErrorView::NotFound { .. } => ErrorCategory::NotFound,
            ErrorView::InvalidTransition { .. }
            | ErrorView::Conflict { .. }
            | ErrorView::IdempotencyConflict { .. } => ErrorCategory::Conflict,
            ErrorView::Declined { .. } => ErrorCategory::Declined,
            ErrorView::WebhookVerification(_) => ErrorCategory::Authorization,
            ErrorView::Gateway { .. } | ErrorView::Storage(_) => ErrorCategory::Upstream,
            ErrorView::UnsupportedCapability { .. } | ErrorView::Configuration(_) =>
                ErrorCategory::Configuration,
            ErrorView::Internal(_) => ErrorCategory::Internal,
        }
    }

    /// Whether retrying could succeed without changing the input.
    pub open spec fn retryable(self) -> bool {
        match self {
            ErrorView::Gateway { retryable, .. } => retryable,
            ErrorView::Declined { code, .. } => code.retryable(),
            ErrorView::Storage(_) => true,
            _ => false,
        }
    }

    /// The error as a sentence for logs and operators.
    pub open spec fn text(self) -> Seq<char> {
        match self {
            ErrorView::Validation(message) => "validation error: "@ + message,
            ErrorView::Money(message) => "money error: "@ + message,
            ErrorView::Allocation(message) => "allocation error: "@ + message,
            ErrorView::CurrencyMismatch { expected, actual } => "currency mismatch: expected "@
                + expected.letters() + ", got "@ + actual.letters(),
            ErrorView::UnknownCurrency(code) => "unknown currency: "@ + code,
            ErrorView::NotFound { kind, id } => kind + " not found: "@ + id,
            ErrorView::InvalidTransition { kind, id, from, to } =>
                "invalid state transition for "@ + kind + " "@ + id + ": "@ + from + " -> "@ + to,
            ErrorView::Conflict { kind, id, message } => "conflict on "@ + kind + " "@ + id + ": "@
                + message,
            ErrorView::IdempotencyConflict { key } => "idempotency key '"@ + key
                + "' was reused with a different request payload"@,
            ErrorView::InsufficientFunds { source_name, available, required } =>
                "insufficient funds: "@ + source_name + " has "@ + available.text() + " but "@
                    + required.text() + " is required"@,
            ErrorView::Declined { code, message } => "payment declined ("@ + code.word() + "): "@
                + message,
            ErrorView::Gateway { gateway, provider_code, message, .. } => "gateway '"@ + gateway
                + "' error"@ + match provider_code {
                Some(code) => " ["@ + code + "]"@,
                None => ""@,
            } + ": "@ + message,
            ErrorView::WebhookVerification(message) =>
                "webhook signature verification failed: "@ + message,
            ErrorView::Storage(message) => "storage error: "@ + message,
            ErrorView::UnsupportedCapability { gateway, capability } => "gateway '"@ + gateway
                + "' does not support "@ + capability,
            ErrorView::Configuration(message) => "configuration error: "@ + message,
            ErrorView::Internal(message) => "internal error: "@ + message,
        }
    }

    /// The error as a sentence for an end user.
    pub open spec fn shopper_text(self) -> Seq<char> {
        match self {
            ErrorView::Declined { code, .. } => code.shopper_text(),
            ErrorView::InsufficientFunds { .. } =>
                "The selected payment methods do not cover the order total."@,
            ErrorView::Validation(message) => message,
            ErrorView::Gateway { .. } | ErrorView::Storage(_) | ErrorView::Internal(_) =>
                "Something went wrong while processing your payment. Please try again."@,
            _ => self.text(),
        }
    }
}

impl Error {
    /// Shorthand for [`Error::Validation`].
    pub fn validation(message: &str) -> (error: Self)
        ensures
            error@ == ErrorView::Validation(message@),
    {
        Error::Validation(message.to_owned())
    }

    /// Shorthand for [`Error::Money`].
    pub fn money(message: &str) -> (error: Self)
        ensures
            error@ == ErrorView::Money(message@),
    {
        Error::Money(message.to_owned())
    }

    /// Shorthand for [`Error::Allocation`].
    pub fn allocation(message: &str) -> (error: Self)
        ensures
            error@ == ErrorView::Allocation(message@),
    {
        Error::Allocation(message.to_owned())
    }

    /// Shorthand for [`Error::Storage`].
    pub fn storage(message: &str) -> (error: Self)
        ensures
            error@ == ErrorView::Storage(message@),
    {
        Error::Storage(message.to_owned())
    }

    /// Shorthand for [`Error::Internal`].
    pub fn internal(message: &str) -> (error: Self)
        ensures
            error@ == ErrorView::Internal(message@),
    {
        Error::Internal(message.to_owned())
    }

    /// Shorthand for [`Error::Configuration`].
    pub fn configuration(message: &str) -> (error: Self)
        ensures
            error@ == ErrorView::Configuration(message@),
    {
        Error::Configuration(message.to_owned())
    }

    /// Shorthand for [`Error::NotFound`].
    pub fn not_found(kind: &'static str, id: &str) -> (error: Self)
        ensures
            error@ == (ErrorView::NotFound { kind: kind@, id: id@ }),
    {
        Error::NotFound { kind, id: id.to_owned() }
    }

    /// Shorthand for [`Error::Conflict`].
    pub fn conflict(kind: &'static str, id: &str, message: &str) -> (error: Self)
        ensures
            error@ == (ErrorView::Conflict { kind: kind@, id: id@, message: message@ }),
    {
        Error::Conflict { kind, id: id.to_owned(), message: message.to_owned() }
    }

    /// Shorthand for [`Error::InvalidTransition`].
    pub fn invalid_transition(kind: &'static str, id: &str, from: &str, to: &str) -> (error: Self)
        ensures
            error@ == (ErrorView::InvalidTransition { kind: kind@, id: id@, from: from@, to: to@ }),
    {
        Error::InvalidTransition {
            kind,
            id: id.to_owned(),
            from: from.to_owned(),
            to: to.to_owned(),
        }
    }

    /// Classify the error for metrics and control flow.
    pub fn category(&self) -> (category: ErrorCategory)
        ensures
            category == self@.category(),
    {
        match self {
            Error::Validation(_)
            | Error::Money(_)
            | Error::Allocation(_)
            | Error::CurrencyMismatch { .. }
            | Error::UnknownCurrency(_)
            | Error::InsufficientFunds { .. } => ErrorCategory::Validation,
            Error::NotFound { .. } => ErrorCategory::NotFound,
            Error::InvalidTransition { .. }
            | Error::Conflict { .. }
            | Error::IdempotencyConflict { .. } => ErrorCategory::Conflict,
            Error::Declined { .. } => ErrorCategory::Declined,
            Error::WebhookVerification(_) => ErrorCategory::Authorization,
            Error::Gateway { .. } | Error::Storage(_) => ErrorCategory::Upstream,
            Error::UnsupportedCapability { .. } | Error::Configuration(_) =>
                ErrorCategory::Configuration,
            Error::Internal(_) => ErrorCategory::Internal,
        }
    }

    /// Whether retrying the operation could succeed without changing the input.
    pub fn is_retryable(&self) -> (retryable: bool)
        ensures
            retryable == self@.retryable(),
    {
        match self {
            Error::Gateway { retryable, .. } => *retryable,
            Error::Declined { code, .. } => code.is_retryable(),
            Error::Storage(_) => true,
            _ => false,
        }
    }

    /// The error as a sentence for logs and operators.
    pub fn to_text(&self) -> (text: String)
        ensures
            text@ == self@.text(),
    {
        let mut text = String::new();
        match self {
            Error::Validation(message) => {
                text.append("validation error: ");
                text.append(message.as_str());
            },
            Error::Money(message) => {
                text.append("money error: ");
                text.append(message.as_str());
            },
            Error::Allocation(message) => {
                text.append("allocation error: ");
                text.append(message.as_str());
            },
            Error::CurrencyMismatch { expected, actual } => {
                text.append("currency mismatch: expected ");
                text.append(expected.code().as_str());
                text.append(", got ");
                text.append(actual.code().as_str());
            },
            Error::UnknownCurrency(code) => {
                text.append("unknown currency: ");
                text.append(code.as_str());
            },
            Error::NotFound { kind, id } => {
                text.append(kind);
                text.append(" not found: ");
                text.append(id.as_str());
            },
            Error::InvalidTransition { kind, id, from, to } => {
                text.append("invalid state transition for ");
                text.append(kind);
                text.append(" ");
                text.append(id.as_str());
                text.append(": ");
                text.append(from.as_str());
                text.append(" -> ");
                text.append(to.as_str());
            },
            Error::Conflict { kind, id, message } => {
                text.append("conflict on ");
                text.append(kind);
                text.append(" ");
                text.append(id.as_str());
                text.append(": ");
                text.append(message.as_str());
            },
            Error::IdempotencyConflict { key } => {
                text.append("idempotency key '");
                text.append(key.as_str());
                text.append("' was reused with a different request payload");
            },
            Error::InsufficientFunds { source_name, available, required } => {
                text.append("insufficient funds: ");
                text.append(source_name.as_str());
                text.append(" has ");
                text.append(available.to_text().as_str());
                text.append(" but ");
                text.append(required.to_text().as_str());
                text.append(" is required");
            },
            Error::Declined { code, message } => {
                text.append("payment declined (");
                text.append(code.as_str());
                text.append("): ");
                text.append(message.as_str());
            },
            Error::Gateway { gateway, provider_code, message, .. } => {
                text.append("gateway '");
                text.append(gateway.as_str());
                text.append("' error");
                match provider_code {
                    Some(code) => {
                        text.append(" [");
                        text.append(code.as_str());
                        text.append("]");
                    },
                    None => {},
                }
                text.append(": ");
                text.append(message.as_str());
            },
            Error::WebhookVerification(message) => {
                text.append("webhook signature verification failed: ");
                text.append(message.as_str());
            },
            Error::Storage(message) => {
                text.append("storage error: ");
                text.append(message.as_str());
            },
            Error::UnsupportedCapability { gateway, capability } => {
                text.append("gateway '");
                text.append(gateway.as_str());
                text.append("' does not support ");
                text.append(capability);
            },
            Error::Configuration(message) => {
                text.append("configuration error: ");
                text.append(message.as_str());
            },
            Error::Internal(message) => {
                text.append("internal error: ");
                text.append(message.as_str());
            },
        }
        proof {
            reveal_strlit("");
            assert(text@ =~= self@.text());
        }
        text
    }

    /// A message that is safe to display to an end user.
    pub fn customer_message(&self) -> (message: String)
        ensures
            message@ == self@.shopper_text(),
    {
        match self {
            Error::Declined { code, .. } => code.customer_message().to_owned(),
            Error::InsufficientFunds { .. } =>
                "The selected payment methods do not cover the order total.".to_owned(),
            Error::Validation(message) => message.clone(),
            Error::Gateway { .. } | Error::Storage(_) | Error::Internal(_) =>
                "Something went wrong while processing your payment. Please try again.".to_owned(),
            _ => self.to_text(),
        }
    }
}

/// What a shopper sees of a declined card is the same whether it was flagged as
/// fraudulent, reported lost or stolen, over its limit, or refused without detail.
pub proof fn law_fraud_signals_are_not_leaked(code: DeclineCode, message: Seq<char>)
    ensures
        code is Fraudulent || code is LostOrStolenCard || code is LimitExceeded ==> (
        ErrorView::Declined { code, message }).shopper_text()
            == DeclineCode::GenericDecline.shopper_text(),
{
}

/// A retry is only ever suggested for a declined card, an upstream gateway or storage.
pub proof fn law_retryable_errors_are_transient(error: ErrorView)
    ensures
        error.retryable() ==> error.category() is Declined || error.category() is Upstream,
{
}

/// What kind of failure an error is.
pub proof fn law_errors_have_their_kind(error: ErrorView)
    ensures
        error.category() is NotFound <==> error is NotFound,
        error.category() is Conflict <==> error is InvalidTransition || error is Conflict
            || error is IdempotencyConflict,
        error.category() is Declined <==> error is Declined,
        error.category() is Authorization <==> error is WebhookVerification,
        error.category() is Upstream <==> error is Gateway || error is Storage,
        error.category() is Configuration <==> error is UnsupportedCapability
            || error is Configuration,
        error.category() is Internal <==> error is Internal,
{
}

/// A failure can be retried exactly when storage failed, a gateway says so, or a card was
/// declined for a passing reason.
pub proof fn law_passing_failures_can_be_retried(error: ErrorView, code: DeclineCode)
    ensures
        code.retryable() <==> code is ProcessingError || code is LimitExceeded,
        error is Storage ==> error.retryable(),
        error matches ErrorView::Gateway { retryable, .. } ==> error.retryable() == retryable,
        error matches ErrorView::Declined { code: reason, .. } ==> error.retryable()
            == reason.retryable(),
        error.retryable() ==> error is Storage || error is Gateway || error is Declined,
{
}

/// What went wrong inside is not shown to a shopper: failures of a gateway, of storage and
/// of the library all read the same.
pub proof fn law_internals_are_not_shown(one: ErrorView, other: ErrorView)
    requires
        one is Gateway || one is Storage || one is Internal,
        other is Gateway || other is Storage || other is Internal,
    ensures
        one.shopper_text() == other.shopper_text(),
{
}

} // verus!
