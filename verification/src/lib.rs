//! Long-term memory engine for assistant runtimes: an indexed store of short
//! textual memories with lexical, vector and hybrid retrieval, decay,
//! pruning and consolidation; a curated concept graph partitioned into
//! memoirs; a rule-based fact extractor; and the line-delimited JSON-RPC
//! tool surface that exposes them.
//!
//! Weights, confidences and scores are carried as scaled integers
//! (parts-per-million for memory weights, thousandths for confidences,
//! tenths for extraction scores); timestamps are Unix milliseconds.

pub mod config;
pub mod embedder;
pub mod errors;
pub mod extract;
pub mod json;
pub mod laws;
pub mod memoir;
pub mod memoir_query;
pub mod memoir_store;
pub mod memory;
pub mod protocol;
pub mod search;
pub mod server;
pub mod store;
pub mod text;
pub mod tools;
pub mod topics;
pub mod trusted;
pub mod vector;

pub use errors::IcmError;
