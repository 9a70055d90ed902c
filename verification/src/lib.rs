//! An in-memory event store and aggregation engine for infant care events:
//! feedings, dejections (diaper events) and weight measurements, with
//! time-windowed queries and whole-document JSON persistence.
//!
//! The store owns three ordered collections and one shared identity
//! sequence; the aggregation engine derives the merged timeline, the
//! bounded summary, and the per-day report; the tracker facade validates
//! textual input and serializes query results. Amounts are held in whole
//! milliliters and weights in grams, and timestamps are the library's own
//! calendar values, so every rule of the engine is arithmetic on plain
//! values.

pub mod agg;
pub mod codec;
pub mod json;
pub mod laws;
pub mod models;
pub mod sort;
pub mod store;
pub mod text;
pub mod time;
pub mod tracker;
