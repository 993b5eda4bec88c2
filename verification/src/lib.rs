//! A cache of the documents found under a directory, with the queries that
//! read it.

pub mod error;
pub mod load;
pub mod number;
pub mod rank;
pub mod recipe;
pub mod review;
pub mod schema;
pub mod snapshot;
pub mod text;
pub mod walk;
pub mod watcher;
