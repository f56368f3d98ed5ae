//! Query and aggregation core of a UTXO-chain indexer.
//!
//! The crate merges a confirmed chain index with a live mempool snapshot into
//! one queryable surface (UTXO sets, histories, stats, spend lookups), keeps
//! small daemon-derived caches (fee estimates, relay fee), and maps a REST
//! surface onto these semantics with cache-control headers tied to
//! confirmation depth.

pub mod amounts;
pub mod bridge;
pub mod chain;
pub mod errors;
pub mod fees;
pub mod json;
pub mod mempool;
pub mod merkle;
pub mod parsing;
pub mod query;
pub mod router;
pub mod script;
pub mod shapes;
pub mod tx;
pub mod types;
