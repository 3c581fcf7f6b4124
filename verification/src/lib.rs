//! Fuzzy lookup core for a keyed record store.
//!
//! The library turns a free-text query into an index expression for an
//! external trigram index, re-ranks the candidate records the store hands
//! back by edit distance to the query, and slices a stable page out of the
//! re-ranked pool together with a "more results exist" flag.

pub mod distance;
pub mod models;
pub mod query;
pub mod search;
