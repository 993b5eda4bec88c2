//! Film reviews, and the two shapes in which a document holds them.

use crate::number::Number;
use crate::rank::Ranked;
use crate::text::{copy_optional, lemma_text_le_order, lemma_text_lt_irreflexive, str_lt, text_lt};
use vstd::prelude::*;

verus! {

/// Thoughts on a film.
#[derive(Debug, PartialEq, Eq)]
pub struct Review {
    /// The title of the film.
    pub title: String,
    /// When the film was released.
    pub year: Option<i32>,
    /// The rating of the film; none while it has not been seen.
    pub rating: Option<Number>,
    /// Further thoughts on the film.
    pub review: Option<String>,
    /// A link to a page about the film.
    pub link: Option<String>,
}

impl Clone for Review {
    fn clone(&self) -> (copy: Self)
        ensures
            copy == *self,
    {
        Review {
            title: self.title.clone(),
            year: self.year,
            rating: self.rating,
            review: copy_optional(&self.review),
            link: copy_optional(&self.link),
        }
    }
}

/// The order of years: an unknown year first, then the known ones ascending.
pub open spec fn year_le(a: Option<i32>, b: Option<i32>) -> bool {
    match (a, b) {
        (None, _) => true,
        (Some(_), None) => false,
        (Some(x), Some(y)) => x <= y,
    }
}

impl Review {
    /// Whether the film has neither a rating nor a written review yet.
    pub open spec fn is_unreviewed(&self) -> bool {
        self.rating is None && self.review is None
    }

    /// Whether the review is of the film with this title and, where `year`
    /// is given, of that year.
    pub open spec fn is_of(&self, title: Seq<char>, year: Option<i32>) -> bool {
        self.title@ == title && (year is Some ==> self.year == year)
    }
}

/// Reviews are ranked by title and, under one title, by year.
impl Ranked for Review {
    open spec fn rank_le(&self, other: &Self) -> bool {
        text_lt(self.title@, other.title@) || (self.title@ == other.title@ && year_le(
            self.year,
            other.year,
        ))
    }

    fn ranks_le(&self, other: &Self) -> (le: bool) {
        if str_lt(self.title.as_str(), other.title.as_str()) {
            true
        } else if self.title == other.title {
            match (self.year, other.year) {
                (None, _) => true,
                (Some(_), None) => false,
                (Some(x), Some(y)) => x <= y,
            }
        } else {
            false
        }
    }

    proof fn rank_total(a: &Self, b: &Self) {
        lemma_text_le_order(a.title@, b.title@, a.title@);
    }

    proof fn rank_transitive(a: &Self, b: &Self, c: &Self) {
        lemma_text_le_order(a.title@, b.title@, c.title@);
        lemma_text_lt_irreflexive(a.title@);
    }
}

/// What a document of reviews holds: one review, or a list of them.
#[derive(Clone, Debug, PartialEq, Eq)]
pub enum Reviews {
    Single(Review),
    List(Vec<Review>),
}

impl Reviews {
    /// The reviews of the document as one sequence.
    pub open spec fn listed(&self) -> Seq<Review> {
        match self {
            Reviews::Single(review) => seq![*review],
            Reviews::List(list) => list@,
        }
    }

    /// The reviews of the document as one list, whichever shape it had.
    pub fn into_list(self) -> (list: Vec<Review>)
        ensures
            list@ == self.listed(),
    {
        match self {
            Reviews::Single(review) => {
                let mut list: Vec<Review> = Vec::new();
                list.push(review);
                proof {
                    assert(list@ =~= seq![review]);
                }
                list
            },
            Reviews::List(list) => list,
        }
    }
}

} // verus!
