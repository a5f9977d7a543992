//! A gateway-agnostic payments engine for marketplaces.
//!
//! This crate models the whole commerce money path — cart, pricing, tax,
//! discounts, checkout, authorisation, capture, split settlement, refunds and
//! disputes — behind interfaces that do not leak any particular payment
//! provider. Swapping Stripe for PayPal is a configuration change, not a
//! rewrite.
//!
//! Everything here computes; nothing talks to a network, a disk or an
//! environment variable. Operations that need the outside world are split: one
//! function prepares what is sent or looked up, another takes the answer.
//!
//! # Design principles
//!
//! 1. **No floats, ever.** All amounts are integer minor units
//!    ([`money::Money`]), and every split goes through the largest-remainder
//!    allocator in [`money::allocate`], so parts always sum exactly to the
//!    whole.
//! 2. **Prove it balances.** [`pricing::Quote::verify`],
//!    [`payment::SettlementPlan::verify`], [`payment::TenderPlan::verify`] and
//!    [`payment::RefundPlan::verify`] check their invariants and are called
//!    automatically. A rounding regression fails loudly instead of quietly
//!    shorting a merchant.
//! 3. **Card data never enters the process.** The API accepts gateway tokens
//!    only; see [`secret`] for the PCI DSS reasoning.
//! 4. **Every function has a contract.** What a function returns is stated over
//!    mathematical models — integers, sequences, maps — and proved.
//!
//! # Module map
//!
//! | module | responsibility |
//! |---|---|
//! | [`money`] | exact amounts, currencies, penny-perfect allocation |
//! | [`cart`] | carts, line items, fulfilment grouping |
//! | [`pricing`] | discounts, tax, FX, the quote engine |
//! | [`order`] | the placed order and its state machine |
//! | [`payment`] | tenders, authorisation/capture, splits, refunds, disputes |
//! | [`ledger`] | gift cards and shop credit |
//! | [`gateway`] | the provider abstraction, routing and adapters |
//! | [`checkout`] | the orchestrator that ties it all together |
//! | [`webhook`] | signature verification, deduplication, dispatch |
//! | [`storage`] | optimistic concurrency and an in-memory implementation |
//! | [`fraud`] | pre-authorisation screening |
//! | [`reporting`] | sales, per-shop and per-funder analytics |
//! | [`wide`] | integers of any size, for the taxes that a price contains |

pub mod address;
pub mod amounts;
pub mod cart;
pub mod checkout;
pub mod collections;
pub mod crypto;
pub mod error;
pub mod folds;
pub mod fraud;
pub mod gateway;
pub mod ids;
pub mod ledger;
pub mod money;
pub mod order;
pub mod payment;
pub mod prelude;
pub mod pricing;
pub mod reporting;
pub mod secret;
pub mod sorting;
pub mod storage;
pub mod sums;
pub mod text;
pub mod time;
pub mod webhook;
pub mod wide;

pub use error::{DeclineCode, Error, ErrorCategory};

use vstd::prelude::*;

verus! {

/// Free-form key/value data carried on most entities and forwarded to gateways,
/// kept in key order so that it is always listed the same way.
pub type Metadata = crate::collections::OrderedMap<String>;

} // verus!
