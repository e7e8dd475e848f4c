//! Estimates the shape of a key-value store's keyspace (key count, memory,
//! expiry and value types) from a bounded sample of its keys.
//!
//! - `stats`, `config`, `output`: the settings of a run.
//! - `sample`: the per-key stat protocol (request words and reply decoding).
//! - `data`: the sample store with its bins, and the aggregates over a bin.
//! - `sampling`: the decisions of random sampling and of the full scan.
//! - `metadata`: the key count of the active database.
//! - `seed`: fake keys for trying the tool on an empty store.
pub mod config;
pub mod data;
pub mod metadata;
pub mod output;
pub mod sample;
pub mod sampling;
pub mod seed;
pub mod stats;
