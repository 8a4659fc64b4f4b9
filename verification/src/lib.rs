//! A batch fetch/retry/collect library for scraping dictionary sites.
//!
//! The core is a generic engine: it partitions a list of entry identifiers
//! into bounded batches, drives a fetch-and-parse adapter with a bounded
//! retry budget per entry, collects successful records, and routes exhausted
//! failures to an append-only error log.  Site-specific extraction for the
//! supported dictionary sites is built on top of the engine.

pub mod engine;
pub mod error;
pub mod handian;
pub mod scrape;
pub mod text;
pub mod utils;
pub mod vocabulary;
pub mod webster;

pub use error::Error;
