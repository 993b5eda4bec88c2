//! What can go wrong while the collections are loaded, watched and queried.

use vstd::prelude::*;

verus! {

/// A failure of loading, of watching, or of a query.
#[derive(Debug, PartialEq, Eq)]
pub enum Error {
    /// A file could not be opened or read; the text says why.
    FileReadError(String),
    /// The directory could not be watched; the text says why.
    NotifyError(String),
    /// The file at `path` does not hold a document of the expected shape.
    YamlError { path: String, error: String },
    /// No recipe has this name.
    NoRecipeNamed(String),
    /// No review is of a film with this title.
    NoReviewTitled(String),
    /// Several films have this title; `years` holds their years in
    /// ascending order.
    MultipleMoviesTitled { title: String, years: Vec<i32> },
}

} // verus!
