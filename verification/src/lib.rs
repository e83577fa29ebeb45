//! A verified persistence engine for a personal prompt library: prompts with
//! tag sets and favorite flags, an append-only version history per prompt,
//! usage events with an incrementally aggregated quality score, filtered and
//! sorted listings, and full-fidelity export and import with all-or-nothing
//! batch semantics.
pub mod clock;
pub mod db;
pub mod query;
pub mod records;
pub mod seqs;
pub mod snapshot;
pub mod store;
pub mod tags;
pub mod text;
