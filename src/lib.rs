//! Incremental flashcard building: cards are cut out of documents,
//! fingerprinted against the previous run, classified, compiled through one
//! reusable buffer per worker, and forgotten again when they fail.

pub mod cache;
pub mod card;
pub mod config;
pub mod driver;
pub mod extract;
pub mod fingerprint;
pub mod imports;
pub mod ingest;
pub mod schedule;
pub mod stats;
pub mod table;
pub mod text;
pub mod upload;
