//! A deterministic ledger engine: participants deposit into a pool, have a
//! bounded contribution score recorded, and receive a share of the reported
//! profit in proportion to that score.

pub mod contract;
pub mod distribution;
pub mod error;
pub mod key;
pub mod laws;
pub mod msg;
pub mod scores;
pub mod state;
