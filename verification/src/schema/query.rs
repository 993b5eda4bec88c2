//! The queries: what is asked of the recipes and the reviews, and what is
//! answered.

use crate::error::Error;
use crate::rank::{is_stable_sort_of, sort_stable};
use crate::recipe::Recipe;
use crate::review::Review;
use crate::schema::context::Context;
use crate::text::{lemma_text_le_order, lemma_text_lt_transitive, str_lt, text_lt, texts};
use vstd::prelude::*;

verus! {

/// The values that a list of references leads to.
pub open spec fn referents<T>(refs: Seq<&T>) -> Seq<T> {
    refs.map_values(|r: &T| *r)
}

/// The tags that were asked for; none where no list was given.
pub open spec fn wanted_tags(tags: Option<Vec<String>>) -> Seq<Seq<char>> {
    match tags {
        Some(list) => texts(list@),
        None => Seq::empty(),
    }
}

/// Whether the recipe is asked for: it carries one of the tags, or no tag
/// was given.
pub open spec fn is_wanted(recipe: Recipe, tags: Seq<Seq<char>>) -> bool {
    tags.len() == 0 || exists|k: int| 0 <= k < tags.len() && recipe.has_tag(#[trigger] tags[k])
}

/// The recipes that are asked for, in the order of `recipes`.
pub open spec fn recipes_wanted(recipes: Seq<Recipe>, tags: Seq<Seq<char>>) -> Seq<Recipe> {
    recipes.filter(|recipe: Recipe| is_wanted(recipe, tags))
}

/// The reviews of the film with this title and, where `year` is given, of
/// that year, in the order of `reviews`.
pub open spec fn reviews_of(reviews: Seq<Review>, title: Seq<char>, year: Option<i32>) -> Seq<
    Review,
> {
    reviews.filter(|review: Review| review.is_of(title, year))
}

/// The reviews of films that have neither a rating nor a written review, in
/// the order of `reviews`.
pub open spec fn unreviewed(reviews: Seq<Review>) -> Seq<Review> {
    reviews.filter(|review: Review| review.is_unreviewed())
}

/// The years of the reviews that have one, in the order of `reviews`.
pub open spec fn known_years(reviews: Seq<Review>) -> Seq<i32>
    decreases reviews.len(),
{
    if reviews.len() == 0 {
        Seq::empty()
    } else {
        let earlier = known_years(reviews.drop_last());
        match reviews.last().year {
            Some(year) => earlier.push(year),
            None => earlier,
        }
    }
}

/// Every tag that some recipe carries.
pub open spec fn all_tags(recipes: Seq<Recipe>) -> Set<Seq<char>> {
    Set::new(
        |tag: Seq<char>| exists|r: int| 0 <= r < recipes.len() && (#[trigger] recipes[r]).has_tag(tag),
    )
}

/// Each text stands strictly before every later one.
pub open spec fn strictly_ascending(list: Seq<Seq<char>>) -> bool {
    forall|i: int, j: int| 0 <= i < j < list.len() ==> text_lt(#[trigger] list[i], #[trigger] list[j])
}

/// The texts of the strings that a list of references leads to.
pub open spec fn referent_texts(refs: Seq<&String>) -> Seq<Seq<char>> {
    refs.map_values(|r: &String| r@)
}

/// What one more element adds to a filtered prefix.
proof fn lemma_filter_next<A>(s: Seq<A>, i: int, pred: spec_fn(A) -> bool)
    requires
        0 <= i < s.len(),
    ensures
        s.subrange(0, i + 1).filter(pred) == if pred(s[i]) {
            s.subrange(0, i).filter(pred).push(s[i])
        } else {
            s.subrange(0, i).filter(pred)
        },
{
    reveal(Seq::filter);
    assert(s.subrange(0, i + 1).drop_last() =~= s.subrange(0, i));
}

/// The root of the queries.
pub struct Query;

impl Query {
    /// Finds a recipe by name: the first of that name, or the error that
    /// there is none.
    pub fn recipe<'a>(name: String, context: &'a Context) -> (found: Result<&'a Recipe, Error>)
        ensures
            match found {
                Ok(recipe) => exists|i: int|
                    {
                        &&& 0 <= i < context.recipes@.len()
                        &&& *recipe == #[trigger] context.recipes@[i]
                        &&& recipe.name@ == name@
                        &&& forall|j: int| 0 <= j < i ==> (#[trigger] context.recipes@[j]).name@ != name@
                    },
                Err(error) => {
                    &&& error == Error::NoRecipeNamed(name)
                    &&& forall|j: int|
                        0 <= j < context.recipes@.len() ==> (#[trigger] context.recipes@[j]).name@
                            != name@
                },
            },
    {
        let mut i: usize = 0;
        while i < context.recipes.len()
            invariant
                i <= context.recipes@.len(),
                forall|j: int| 0 <= j < i ==> (#[trigger] context.recipes@[j]).name@ != name@,
            decreases context.recipes.len() - i,
        {
            if context.recipes[i].name == name {
                return Ok(&context.recipes[i]);
            }
            i = i + 1;
        }
        Err(Error::NoRecipeNamed(name))
    }

    /// Whether the recipe carries the tag.
    fn carries(recipe: &Recipe, tag: &String) -> (carried: bool)
        ensures
            carried == recipe.has_tag(tag@),
    {
        let mut i: usize = 0;
        while i < recipe.tags.len()
            invariant
                i <= recipe.tags@.len(),
                forall|k: int| 0 <= k < i ==> (#[trigger] recipe.tags@[k])@ != tag@,
            decreases recipe.tags.len() - i,
        {
            if recipe.tags[i] == *tag {
                return true;
            }
            i = i + 1;
        }
        false
    }

    /// Whether the recipe carries one of the tags, or no tag was given.
    fn wants(recipe: &Recipe, tags: &Vec<String>) -> (wanted: bool)
        ensures
            wanted == is_wanted(*recipe, texts(tags@)),
    {
        if tags.len() == 0 {
            return true;
        }
        let mut k: usize = 0;
        while k < tags.len()
            invariant
                k <= tags@.len(),
                tags@.len() > 0,
                forall|j: int| 0 <= j < k ==> !recipe.has_tag(#[trigger] texts(tags@)[j]),
            decreases tags.len() - k,
        {
            if Self::carries(recipe, &tags[k]) {
                proof {
                    assert(recipe.has_tag(texts(tags@)[k as int]));
                }
                return true;
            }
            k = k + 1;
        }
        false
    }

    /// Lists the recipes that carry one of the given tags, in the order in
    /// which the context holds them. Where no tag is given, lists them all.
    pub fn recipes<'a>(tags: Option<Vec<String>>, context: &'a Context) -> (found: Vec<&'a Recipe>)
        ensures
            referents(found@) == recipes_wanted(context.recipes@, wanted_tags(tags)),
    {
        let ghost wanted = wanted_tags(tags);
        let tags: Vec<String> = match tags {
            Some(list) => list,
            None => Vec::new(),
        };
        assert(texts(tags@) =~= wanted);
        let mut found: Vec<&'a Recipe> = Vec::new();
        let mut i: usize = 0;
        proof {
            assert(referents(found@) =~= recipes_wanted(context.recipes@.subrange(0, 0), wanted));
        }
        while i < context.recipes.len()
            invariant
                i <= context.recipes@.len(),
                texts(tags@) == wanted,
                referents(found@) == recipes_wanted(context.recipes@.subrange(0, i as int), wanted),
            decreases context.recipes.len() - i,
        {
            proof {
                lemma_filter_next(
                    context.recipes@,
                    i as int,
                    |recipe: Recipe| is_wanted(recipe, wanted),
                );
            }
            let ghost before = found@;
            if Self::wants(&context.recipes[i], &tags) {
                found.push(&context.recipes[i]);
                proof {
                    assert(referents(found@) =~= referents(before).push(context.recipes@[i as int]));
                }
            }
            i = i + 1;
        }
        proof {
            assert(context.recipes@.subrange(0, i as int) =~= context.recipes@);
        }
        found
    }

    /// Finds the review of a film by its title and, where one is given, its
    /// year. Where no review matches, the error says that there is none; where
    /// several do, the error carries the years of those that have one, in
    /// ascending order.
    pub fn review(title: String, year: Option<i32>, context: &Context) -> (found: Result<
        Review,
        Error,
    >)
        ensures
            match found {
                Ok(review) => {
                    &&& reviews_of(context.reviews@, title@, year).len() == 1
                    &&& review == reviews_of(context.reviews@, title@, year)[0]
                },
                Err(Error::NoReviewTitled(asked)) => {
                    &&& reviews_of(context.reviews@, title@, year).len() == 0
                    &&& asked == title
                },
                Err(Error::MultipleMoviesTitled { title: asked, years }) => {
                    &&& reviews_of(context.reviews@, title@, year).len() > 1
                    &&& asked == title
                    &&& is_stable_sort_of(
                        years@,
                        known_years(reviews_of(context.reviews@, title@, year)),
                    )
                },
                Err(_) => false,
            },
    {
        let mut matching: Vec<&Review> = Vec::new();
        let mut i: usize = 0;
        proof {
            assert(referents(matching@) =~= reviews_of(
                context.reviews@.subrange(0, 0),
                title@,
                year,
            ));
        }
        while i < context.reviews.len()
            invariant
                i <= context.reviews@.len(),
                referents(matching@) == reviews_of(
                    context.reviews@.subrange(0, i as int),
                    title@,
                    year,
                ),
            decreases context.reviews.len() - i,
        {
            proof {
                lemma_filter_next(
                    context.reviews@,
                    i as int,
                    |review: Review| review.is_of(title@, year),
                );
            }
            let ghost before = matching@;
            let review = &context.reviews[i];
            let of_year = match year {
                None => true,
                Some(y) => match review.year {
                    Some(released) => released == y,
                    None => false,
                },
            };
            if review.title == title && of_year {
                matching.push(review);
                proof {
                    assert(referents(matching@) =~= referents(before).push(
                        context.reviews@[i as int],
                    ));
                }
            }
            i = i + 1;
        }
        proof {
            assert(context.reviews@.subrange(0, i as int) =~= context.reviews@);
        }
        if matching.len() == 0 {
            Err(Error::NoReviewTitled(title))
        } else if matching.len() == 1 {
            Ok(matching[0].clone())
        } else {
            let years = Self::years_of(&matching);
            Err(Error::MultipleMoviesTitled { title, years: sort_stable(years) })
        }
    }

    /// The years of the reviews that have one, in the order of the reviews.
    fn years_of(reviews: &Vec<&Review>) -> (years: Vec<i32>)
        ensures
            years@ == known_years(referents(reviews@)),
    {
        let ghost all = referents(reviews@);
        let mut years: Vec<i32> = Vec::new();
        let mut k: usize = 0;
        proof {
            assert(years@ =~= known_years(all.subrange(0, 0)));
        }
        while k < reviews.len()
            invariant
                k <= reviews@.len(),
                all == referents(reviews@),
                years@ == known_years(all.subrange(0, k as int)),
            decreases reviews.len() - k,
        {
            proof {
                assert(all.subrange(0, k + 1).drop_last() =~= all.subrange(0, k as int));
                assert(all.subrange(0, k + 1).last() == *reviews@[k as int]);
            }
            match reviews[k].year {
                Some(year) => {
                    years.push(year);
                },
                None => {},
            }
            k = k + 1;
        }
        proof {
            assert(all.subrange(0, k as int) =~= all);
        }
        years
    }

    /// Puts the tag into an ascending list of tags, unless the list has it.
    fn note_tag<'a>(tags: &mut Vec<&'a String>, tag: &'a String)
        requires
            strictly_ascending(referent_texts(old(tags)@)),
        ensures
            strictly_ascending(referent_texts(final(tags)@)),
            referent_texts(final(tags)@).to_set() == referent_texts(old(tags)@).to_set().insert(
                tag@,
            ),
    {
        let ghost before = referent_texts(tags@);
        let mut p: usize = 0;
        while p < tags.len() && str_lt(tags[p].as_str(), tag.as_str())
            invariant
                p <= tags@.len(),
                before == referent_texts(tags@),
                forall|i: int| 0 <= i < p ==> text_lt(#[trigger] before[i], tag@),
            decreases tags.len() - p,
        {
            p = p + 1;
        }
        if p < tags.len() && *tags[p] == *tag {
            proof {
                assert(before[p as int] == tag@);
                assert(before.contains(tag@));
                assert(before.to_set() =~= before.to_set().insert(tag@));
            }
        } else {
            tags.insert(p, tag);
            proof {
                let after = referent_texts(tags@);
                assert(after =~= before.insert(p as int, tag@));
                // What stands from `p` on stands strictly behind the tag.
                assert forall|j: int| p <= j < before.len() implies text_lt(
                    tag@,
                    #[trigger] before[j],
                ) by {
                    lemma_text_le_order(tag@, before[p as int], tag@);
                    if p < j {
                        assert(text_lt(before[p as int], before[j]));
                        lemma_text_lt_transitive(tag@, before[p as int], before[j]);
                    }
                }
                assert forall|i: int, j: int| 0 <= i < j < after.len() implies text_lt(
                    #[trigger] after[i],
                    #[trigger] after[j],
                ) by {
                    if j < p {
                        assert(after[i] == before[i] && after[j] == before[j]);
                    } else if j == p {
                        assert(after[i] == before[i]);
                    } else if i < p {
                        assert(after[i] == before[i] && after[j] == before[j - 1]);
                        if i == j - 1 {
                        } else {
                            assert(text_lt(before[i], before[j - 1]));
                        }
                    } else if i == p {
                        assert(after[j] == before[j - 1]);
                    } else {
                        assert(after[i] == before[i - 1] && after[j] == before[j - 1]);
                    }
                }
                assert forall|t: Seq<char>| after.contains(t) <==> (t == tag@ || before.contains(
                    t,
                )) by {
                    if after.contains(t) {
                        let k = choose|k: int| 0 <= k < after.len() && after[k] == t;
                        if k < p {
                            assert(before[k] == t);
                        } else if k > p {
                            assert(before[k - 1] == t);
                        }
                    }
                    if before.contains(t) {
                        let k = choose|k: int| 0 <= k < before.len() && before[k] == t;
                        if k < p {
                            assert(after[k] == t);
                        } else {
                            assert(after[k + 1] == t);
                        }
                    }
                    if t == tag@ {
                        assert(after[p as int] == t);
                    }
                }
                assert(after.to_set() =~= before.to_set().insert(tag@));
            }
        }
    }

    /// Lists every tag that some recipe carries, each once, in ascending
    /// order.
    pub fn recipe_tags<'a>(context: &'a Context) -> (tags: Vec<&'a String>)
        ensures
            strictly_ascending(referent_texts(tags@)),
            referent_texts(tags@).to_set() == all_tags(context.recipes@),
    {
        let mut tags: Vec<&'a String> = Vec::new();
        let mut r: usize = 0;
        proof {
            assert(referent_texts(tags@).to_set() =~= all_tags(context.recipes@.subrange(0, 0)));
        }
        while r < context.recipes.len()
            invariant
                r <= context.recipes@.len(),
                strictly_ascending(referent_texts(tags@)),
                referent_texts(tags@).to_set() == all_tags(context.recipes@.subrange(0, r as int)),
            decreases context.recipes.len() - r,
        {
            let recipe = &context.recipes[r];
            let ghost earlier = all_tags(context.recipes@.subrange(0, r as int));
            let mut k: usize = 0;
            while k < recipe.tags.len()
                invariant
                    k <= recipe.tags@.len(),
                    strictly_ascending(referent_texts(tags@)),
                    referent_texts(tags@).to_set() == earlier.union(
                        texts(recipe.tags@.subrange(0, k as int)).to_set(),
                    ),
                decreases recipe.tags.len() - k,
            {
                Self::note_tag(&mut tags, &recipe.tags[k]);
                proof {
                    let now = texts(recipe.tags@.subrange(0, k + 1));
                    let was = texts(recipe.tags@.subrange(0, k as int));
                    assert(now =~= was.push(recipe.tags@[k as int]@));
                    assert forall|t: Seq<char>| now.contains(t) <==> (was.contains(t) || t
                        == recipe.tags@[k as int]@) by {
                        if now.contains(t) {
                            let m = choose|m: int| 0 <= m < now.len() && now[m] == t;
                            if m < k {
                                assert(was[m] == t);
                            }
                        }
                        if was.contains(t) {
                            let m = choose|m: int| 0 <= m < was.len() && was[m] == t;
                            assert(now[m] == t);
                        }
                        if t == recipe.tags@[k as int]@ {
                            assert(now[k as int] == t);
                        }
                    }
                    assert(now.to_set() =~= was.to_set().insert(recipe.tags@[k as int]@));
                    assert(referent_texts(tags@).to_set() =~= earlier.union(now.to_set()));
                }
                k = k + 1;
            }
            proof {
                let upto = context.recipes@.subrange(0, r + 1);
                let held = texts(recipe.tags@);
                assert(recipe.tags@.subrange(0, k as int) =~= recipe.tags@);
                assert forall|t: Seq<char>| all_tags(upto).contains(t) <==> (earlier.contains(t)
                    || held.contains(t)) by {
                    if all_tags(upto).contains(t) {
                        let q = choose|q: int| 0 <= q < upto.len() && (#[trigger] upto[q]).has_tag(t);
                        if q < r {
                            assert(context.recipes@.subrange(0, r as int)[q].has_tag(t));
                        } else {
                            let m = choose|m: int|
                                0 <= m < recipe.tags@.len() && (#[trigger] recipe.tags@[m])@ == t;
                            assert(held[m] == t);
                        }
                    }
                    if earlier.contains(t) {
                        let q = choose|q: int|
                            0 <= q < r && (#[trigger] context.recipes@.subrange(0, r as int)[q]).has_tag(t);
                        assert(upto[q].has_tag(t));
                    }
                    if held.contains(t) {
                        let m = choose|m: int| 0 <= m < held.len() && held[m] == t;
                        assert(recipe.tags@[m]@ == t);
                        assert(upto[r as int].has_tag(t));
                    }
                }
                assert(all_tags(upto) =~= earlier.union(held.to_set()));
            }
            r = r + 1;
        }
        proof {
            assert(context.recipes@.subrange(0, r as int) =~= context.recipes@);
        }
        tags
    }

    /// Lists all reviews.
    pub fn reviews(context: &Context) -> (all: &Vec<Review>)
        ensures
            *all == context.reviews,
    {
        &context.reviews
    }

    /// Lists the films that have no review yet, in the order in which the
    /// context holds them.
    pub fn unreviewed_films<'a>(context: &'a Context) -> (found: Vec<&'a Review>)
        ensures
            referents(found@) == unreviewed(context.reviews@),
    {
        let mut found: Vec<&'a Review> = Vec::new();
        let mut i: usize = 0;
        proof {
            assert(referents(found@) =~= unreviewed(context.reviews@.subrange(0, 0)));
        }
        while i < context.reviews.len()
            invariant
                i <= context.reviews@.len(),
                referents(found@) == unreviewed(context.reviews@.subrange(0, i as int)),
            decreases context.reviews.len() - i,
        {
            proof {
                lemma_filter_next(
                    context.reviews@,
                    i as int,
                    |review: Review| review.is_unreviewed(),
                );
            }
            let ghost before = found@;
            let review = &context.reviews[i];
            if review.rating.is_none() && review.review.is_none() {
                found.push(review);
                proof {
                    assert(referents(found@) =~= referents(before).push(context.reviews@[i as int]));
                }
            }
            i = i + 1;
        }
        proof {
            assert(context.reviews@.subrange(0, i as int) =~= context.reviews@);
        }
        found
    }
}

} // verus!
