//! What the queries see of the collections, and the queries themselves.

pub mod context;
pub mod query;
