//! Seeding and resetting of a local trip store.
//!
//! The library holds the verified core of a small data-loading utility: it
//! escapes field text for embedding in SQL string literals, serializes
//! sequence-valued fields to a bracketed array format, renders each trip
//! record as one idempotent upsert statement, and models the effect of
//! running those statements against the `trips` table, so that idempotent
//! seeding, clean reset and schema creation are stated and proved.

pub mod errors;
pub mod escape;
pub mod listfmt;
pub mod numfmt;
pub mod sqlgen;
pub mod store;
pub mod text;
pub mod trip;
