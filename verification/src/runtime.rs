//! Relation identity and the session transaction.
pub mod relation;
pub mod transact;
