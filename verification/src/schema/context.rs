//! The documents that a query runs against.

use crate::error::Error;
use crate::rank::{is_stable_sort_of, sort_stable};
use crate::recipe::Recipe;
use crate::review::{Review, Reviews};
use crate::text::texts;
use crate::walk::{document_paths, select_documents, WalkEntry};
use vstd::prelude::*;

verus! {

/// The recipes that were loaded, in the order of their files. A file that
/// failed to load gives none.
pub open spec fn loaded_recipes(files: Seq<Result<Recipe, Error>>) -> Seq<Recipe>
    decreases files.len(),
{
    if files.len() == 0 {
        Seq::empty()
    } else {
        let earlier = loaded_recipes(files.drop_last());
        match files.last() {
            Ok(recipe) => earlier.push(recipe),
            Err(_) => earlier,
        }
    }
}

/// The reviews that were loaded, in the order of their files and, within a
/// file, in the order in which it lists them. A file that failed to load
/// gives none.
pub open spec fn loaded_reviews(files: Seq<Result<Reviews, Error>>) -> Seq<Review>
    decreases files.len(),
{
    if files.len() == 0 {
        Seq::empty()
    } else {
        let earlier = loaded_reviews(files.drop_last());
        match files.last() {
            Ok(reviews) => earlier + reviews.listed(),
            Err(_) => earlier,
        }
    }
}

/// The documents that a query runs against: the recipes by name, the reviews
/// by title and year.
pub struct Context {
    pub reviews: Vec<Review>,
    pub recipes: Vec<Recipe>,
}

impl Context {
    /// Gathers the documents that were loaded from the two directories, each
    /// list given file by file with the outcome of loading it. Files that
    /// failed to load are left out. The recipes are sorted by name, the
    /// reviews by title and year; documents that tie keep the order of their
    /// files.
    pub fn new(recipe_files: Vec<Result<Recipe, Error>>, review_files: Vec<Result<Reviews, Error>>) -> (context: Self)
        ensures
            is_stable_sort_of(context.recipes@, loaded_recipes(recipe_files@)),
            is_stable_sort_of(context.reviews@, loaded_reviews(review_files@)),
    {
        let recipes = Self::gather_recipes(recipe_files);
        let reviews = Self::gather_reviews(review_files);
        Context { recipes: sort_stable(recipes), reviews: sort_stable(reviews) }
    }

    /// The paths of the documents among the entries that a walk of a
    /// directory yielded, in the order of the walk.
    pub fn walk_files(entries: Vec<WalkEntry>) -> (paths: Vec<String>)
        ensures
            texts(paths@) == document_paths(entries@),
    {
        select_documents(entries)
    }

    /// The recipes that were loaded, in the order of their files.
    fn gather_recipes(files: Vec<Result<Recipe, Error>>) -> (recipes: Vec<Recipe>)
        ensures
            recipes@ == loaded_recipes(files@),
    {
        let ghost input = files@;
        let mut rest = files;
        let mut recipes: Vec<Recipe> = Vec::new();
        let ghost mut taken: int = 0;
        proof {
            assert(recipes@ =~= loaded_recipes(input.subrange(0, 0)));
        }
        while rest.len() > 0
            invariant
                0 <= taken <= input.len(),
                rest@ == input.subrange(taken, input.len() as int),
                recipes@ == loaded_recipes(input.subrange(0, taken)),
            decreases rest.len(),
        {
            let file = rest.remove(0);
            proof {
                assert(file == input[taken]);
                assert(input.subrange(0, taken + 1).drop_last() =~= input.subrange(0, taken));
                assert(rest@ =~= input.subrange(taken + 1, input.len() as int));
            }
            match file {
                Ok(recipe) => {
                    recipes.push(recipe);
                },
                Err(_) => {},
            }
            proof {
                taken = taken + 1;
            }
        }
        proof {
            assert(input.subrange(0, taken) =~= input);
        }
        recipes
    }

    /// The reviews that were loaded, in the order of their files, a list of
    /// reviews laid out one by one.
    fn gather_reviews(files: Vec<Result<Reviews, Error>>) -> (reviews: Vec<Review>)
        ensures
            reviews@ == loaded_reviews(files@),
    {
        let ghost input = files@;
        let mut rest = files;
        let mut reviews: Vec<Review> = Vec::new();
        let ghost mut taken: int = 0;
        proof {
            assert(reviews@ =~= loaded_reviews(input.subrange(0, 0)));
        }
        while rest.len() > 0
            invariant
                0 <= taken <= input.len(),
                rest@ == input.subrange(taken, input.len() as int),
                reviews@ == loaded_reviews(input.subrange(0, taken)),
            decreases rest.len(),
        {
            let file = rest.remove(0);
            proof {
                assert(file == input[taken]);
                assert(input.subrange(0, taken + 1).drop_last() =~= input.subrange(0, taken));
                assert(rest@ =~= input.subrange(taken + 1, input.len() as int));
            }
            match file {
                Ok(document) => {
                    let mut list = document.into_list();
                    reviews.append(&mut list);
                },
                Err(_) => {},
            }
            proof {
                taken = taken + 1;
            }
        }
        proof {
            assert(input.subrange(0, taken) =~= input);
        }
        reviews
    }
}

} // verus!
