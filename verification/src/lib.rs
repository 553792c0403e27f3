//! A batch coincidence-of-wants settlement engine.
//!
//! Directional orders for an asset pair are collected over a batch window,
//! netted against each other at a fixed clearing price, and only the
//! unmatched residual is routed to an external liquidity venue. The engine
//! state is an explicit handle threaded through every operation: a registry
//! of pair configurations with their precomputed surpluses, and an
//! append-only queue of outbound settlement instructions.

pub mod contract;
pub mod error;
pub mod msg;
pub mod state;

pub use crate::error::ContractError;
