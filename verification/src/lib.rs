//! Core domain model and business logic for a cardio "microdose" prescription
//! system: a durable session store (append-only log, archival rollup, crash-safe
//! progression state) and a rule-based prescription engine.
//!
//! The store modules own the record formats and prove that records round-trip;
//! the surrounding application performs the locked, atomic file operations and
//! hands the contents back and forth as plain strings. The on-disk formats are
//! this crate's own line-oriented encodings, chosen so that every record can
//! be proved to read back exactly as written; documents written by other
//! encodings of the same stores do not read back.

pub mod catalog;
pub mod config;
pub mod csv_rollup;
pub mod engine;
pub mod error;
pub mod flow;
pub mod history;
pub mod numfmt;
pub mod progression;
pub mod state;
pub mod strength;
pub mod strutil;
pub mod types;
pub mod wal;
