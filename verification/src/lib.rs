//! An ingestion-and-distribution core: blocks fetched from an upstream source
//! are persisted idempotently in a store with a uniqueness invariant on block
//! id, fanned out to live subscribers with per-subscriber bounded queues, and
//! queried through point lookups and range aggregation.

pub mod models;
pub mod api;
pub mod errors;
pub mod window;
pub mod aggregate;
pub mod store;
pub mod hub;
pub mod ingest;
pub mod query;
