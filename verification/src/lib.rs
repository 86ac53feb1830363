//! A verified core for a blockchain indexer.
//!
//! The library models the indexer's synchronization engine and its
//! persistence semantics: idempotent block upserts, first-write-wins
//! transaction inserts, batched backfill over a height range, tip
//! following, aggregate statistics, and the read-path decisions of the
//! query service. All I/O (the chain node's RPC endpoints, the
//! relational store, the HTTP listener) lives outside the library; the
//! functions here take plain values and return plain values, and every
//! one of them carries a verified contract.

pub mod calendar;
pub mod classify;
pub mod engine;
pub mod error;
pub mod payload;
pub mod query;
pub mod records;
pub mod stats;
pub mod store;
pub mod text;
