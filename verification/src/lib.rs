//! Accounting and governance core of an onboarding bridge contract that
//! funds contract addresses: a fee charged in basis points on every funding,
//! the fees it accumulates, an emergency pause, and a timelock under which
//! administrative operations are proposed, cancelled and executed.
//!
//! The host environment (storage, authorization, events, the ledger clock)
//! stays with the caller; the library decides every outcome.
pub mod digest;
pub mod error;
pub mod model;
pub mod bridge;
pub mod laws;
pub mod token;
