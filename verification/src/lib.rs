//! A verified transaction-processing engine.
//!
//! The library replays a sequential log of financial events (deposits,
//! withdrawals, disputes, resolves and chargebacks) against a set of
//! per-client accounts and produces a final balance summary per client.
//! The processing rules are stated as a mathematical transition function
//! over an abstract model of the processor, and the executable code is
//! proved to follow that function step by step.

pub mod laws;
pub mod model;
pub mod processor;
