//! A multi-source price oracle: price submissions from whitelisted sources are
//! aggregated (median by default) into a published price per asset, with
//! history, overrides, governance and relayer bookkeeping.
//!
//! The contract state is held in plain Rust values owned by the library; every
//! operation is a verified function from the current state and the ledger
//! clock to the next state and a result.

pub mod arith;
pub mod types;
pub mod crypto;
pub mod history;
pub mod oracle;
pub mod admin;
pub mod aggregation;
pub mod stats;
pub mod fixed;
pub mod submission;
pub mod commit_reveal;
pub mod twap;
pub mod queries;
pub mod heartbeat;
pub mod rate_limiting;
pub mod sep40_consumer;
pub mod ohlcv;
pub mod multisig;
pub mod relayer_dashboard;
pub mod migration;
pub mod relayer;
pub mod reputation;
pub mod market_impact;
pub mod optimistic;
pub mod pruning;
pub mod ibc;
pub mod layerzero;
pub mod rotation;
pub mod rbac;
pub mod operations;
pub mod timelock;
pub mod registry;
pub mod price_proof;
pub mod callbacks;
pub mod health;
pub mod merkle;
pub mod laws;
