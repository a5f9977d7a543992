//! The types most applications need, in one import.

pub use crate::address::{Address, CountryCode, Jurisdiction};
pub use crate::cart::{
    Cart, CartItem, CartService, FulfillmentMethod, FulfillmentSelection, FulfillmentStatus,
};
pub use crate::checkout::{
    single_use, CheckoutConfig, CheckoutEngine, CheckoutRequest, CheckoutResult, CheckoutStep,
};
pub use crate::error::{DeclineCode, Error};
pub use crate::fraud::{FraudPolicy, RiskDecision, RuleBasedFraudEngine};
pub use crate::gateway::mock::MockGateway;
pub use crate::gateway::{
    Capabilities, CaptureMode, GatewayId, GatewayRegistry, InstrumentRef, RoutingRule,
};
pub use crate::ids::{
    AccountId, CartId, CustomerId, GiftCardId, LineItemId, OrderId, PaymentId, ShopId,
};
pub use crate::ledger::{GiftCard, ShopCreditAccount};
pub use crate::money::{allocate, Currency, Money, Rounding};
pub use crate::order::{Order, OrderStatus};
pub use crate::payment::{
    Payment, PaymentStatus, PlatformFeePolicy, RefundRequest, SettlementPlan, ShopAccounts,
    TenderOffer, TenderPlan,
};
pub use crate::pricing::{
    Discount, DiscountScope, NoTaxCalculator, PricingConfig, PricingEngine, RateTableTaxCalculator,
    TaxCode, TaxMode, TaxRule,
};
pub use crate::reporting::{DateRange, Reporting};
pub use crate::storage::memory::{
    InMemoryCartRepository, InMemoryDiscountRepository, InMemoryDisputeRepository,
    InMemoryGiftCardRepository, InMemoryIdempotencyStore, InMemoryOrderRepository,
    InMemoryPaymentMethodRepository, InMemoryPaymentRepository, InMemoryProcessedEventStore,
    InMemoryShopCreditRepository,
};
pub use crate::webhook::{Headers, WebhookProcessor};
