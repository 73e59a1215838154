//! Physical storage layer of a triple-oriented embedded database.
//!
//! Facts of the shape (entity, attribute, value, transaction) are turned into
//! ordered byte keys, one layout per index kind, and a comparator rebuilds the
//! intended order from the raw bytes alone. A session transaction bootstraps
//! and version-checks the key space before anything else touches it.
pub mod data;
pub mod db;
pub mod runtime;
pub mod storage;
