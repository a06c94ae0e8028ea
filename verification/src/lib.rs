//! Persistence and indexing core of a group-chat recorder: a word-occurrence
//! index built from incoming messages.
//!
//! The `index` module holds the verified engine: lexicon and utterance
//! interning, stop-word filtering, the append-only relation ledger, and the
//! ingestion pipeline, all specified against a mathematical model of the four
//! tables. The `laws` module proves the global properties of that model. The
//! `store` module runs the same pipeline against a SQLite database through a
//! small set of trusted wrappers.

pub mod errors;
pub mod index;
pub mod laws;
pub mod msg;
pub mod store;
