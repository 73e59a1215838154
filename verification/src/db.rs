//! Session-local state outside the store.
pub mod eval;
