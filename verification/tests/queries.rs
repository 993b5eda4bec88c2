use collection_cache::error::Error;
use collection_cache::number::Number;
use collection_cache::recipe::{Ingredients, Recipe};
use collection_cache::review::{Review, Reviews};
use collection_cache::schema::context::Context;
use collection_cache::schema::query::Query;
use collection_cache::watcher::CollectionWatcher;

fn recipe(name: &str, tags: &[&str]) -> Recipe {
    Recipe {
        name: name.to_string(),
        notes: None,
        tags: tags.iter().map(|t| t.to_string()).collect(),
        image: None,
        links: Vec::new(),
        steps: vec!["Cook".to_string()],
        ingredients: Ingredients::PlainList(Vec::new()),
        nutrition: None,
    }
}

fn review(title: &str, year: Option<i32>) -> Review {
    Review {
        title: title.to_string(),
        year,
        rating: Some(Number::from_bits(4.5f64.to_bits())),
        review: Some("Worth seeing".to_string()),
        link: None,
    }
}

fn recipes_only(recipes: Vec<Recipe>) -> Context {
    Context::new(recipes.into_iter().map(Ok).collect(), Vec::new())
}

fn reviews_only(reviews: Vec<Review>) -> Context {
    Context::new(Vec::new(), vec![Ok(Reviews::List(reviews))])
}

fn names(found: &[&Recipe]) -> Vec<String> {
    let mut names: Vec<String> = found.iter().map(|r| r.name.clone()).collect();
    names.sort();
    names
}

fn context_of(watcher: &CollectionWatcher<Recipe>) -> Context {
    let snapshot = watcher.read_collection();
    let mut files = Vec::new();
    for i in 0..snapshot.len() {
        files.push(Ok(snapshot.document_at(i).clone()));
    }
    Context::new(files, Vec::new())
}

#[test]
fn tag_query_follows_an_edit_after_one_rebuild() {
    let mut watcher: CollectionWatcher<Recipe> = CollectionWatcher::new("recipes".to_string());
    watcher.update_all_files(vec![
        ("recipes/pasta.yml".to_string(), Ok(recipe("Pasta", &["italian"]))),
        ("recipes/salad.yml".to_string(), Ok(recipe("Salad", &["healthy"]))),
    ]);
    let context = context_of(&watcher);
    let found = Query::recipes(Some(vec!["italian".to_string()]), &context);
    assert_eq!(names(&found), vec!["Pasta".to_string()]);

    watcher.update_all_files(vec![
        ("recipes/pasta.yml".to_string(), Ok(recipe("Pasta", &["italian"]))),
        ("recipes/salad.yml".to_string(), Ok(recipe("Salad", &["healthy", "italian"]))),
    ]);
    let context = context_of(&watcher);
    let found = Query::recipes(Some(vec!["italian".to_string()]), &context);
    assert_eq!(names(&found), vec!["Pasta".to_string(), "Salad".to_string()]);
}

#[test]
fn ambiguous_title_carries_the_years_in_ascending_order() {
    let context = Context::new(
        Vec::new(),
        vec![
            Ok(Reviews::Single(review("Arrival", Some(2017)))),
            Ok(Reviews::Single(review("Arrival", Some(2016)))),
        ],
    );
    let found = Query::review("Arrival".to_string(), None, &context);
    assert_eq!(
        found,
        Err(Error::MultipleMoviesTitled { title: "Arrival".to_string(), years: vec![2016, 2017] })
    );
    let found = Query::review("Arrival".to_string(), Some(2016), &context);
    assert_eq!(found, Ok(review("Arrival", Some(2016))));
    let found = Query::review("Arrival".to_string(), Some(2017), &context);
    assert_eq!(found, Ok(review("Arrival", Some(2017))));
}

#[test]
fn ambiguous_title_leaves_out_unknown_years() {
    let context = reviews_only(vec![
        review("Solaris", Some(2002)),
        review("Solaris", None),
        review("Solaris", Some(1972)),
        review("Solaris", Some(2002)),
        review("Stalker", Some(1979)),
    ]);
    assert_eq!(
        Query::review("Solaris".to_string(), None, &context),
        Err(Error::MultipleMoviesTitled {
            title: "Solaris".to_string(),
            years: vec![1972, 2002, 2002]
        })
    );
    assert_eq!(
        Query::review("Solaris".to_string(), Some(2002), &context),
        Err(Error::MultipleMoviesTitled { title: "Solaris".to_string(), years: vec![2002, 2002] })
    );
    assert_eq!(
        Query::review("Solaris".to_string(), Some(1972), &context),
        Ok(review("Solaris", Some(1972)))
    );
}

#[test]
fn review_without_a_match_is_an_error() {
    let context = reviews_only(vec![review("Arrival", Some(2016)), review("Alien", None)]);
    assert_eq!(
        Query::review("Dune".to_string(), None, &context),
        Err(Error::NoReviewTitled("Dune".to_string()))
    );
    assert_eq!(
        Query::review("Arrival".to_string(), Some(1999), &context),
        Err(Error::NoReviewTitled("Arrival".to_string()))
    );
    assert_eq!(
        Query::review("Alien".to_string(), Some(1979), &context),
        Err(Error::NoReviewTitled("Alien".to_string()))
    );
    assert_eq!(Query::review("Alien".to_string(), None, &context), Ok(review("Alien", None)));
}

#[test]
fn recipe_is_found_by_name() {
    let context = recipes_only(vec![recipe("Salad", &["healthy"]), recipe("Pasta", &["italian"])]);
    let found = Query::recipe("Pasta".to_string(), &context);
    assert_eq!(found, Ok(&recipe("Pasta", &["italian"])));
    assert_eq!(
        Query::recipe("Soup".to_string(), &context),
        Err(Error::NoRecipeNamed("Soup".to_string()))
    );
    assert_eq!(
        Query::recipe("pasta".to_string(), &context),
        Err(Error::NoRecipeNamed("pasta".to_string()))
    );
}

#[test]
fn recipe_by_name_gives_the_first_of_that_name() {
    let context = recipes_only(vec![recipe("Pasta", &["first"]), recipe("Pasta", &["second"])]);
    assert_eq!(Query::recipe("Pasta".to_string(), &context), Ok(&recipe("Pasta", &["first"])));
}

#[test]
fn recipes_without_tags_lists_all() {
    let context = recipes_only(vec![recipe("Salad", &["healthy"]), recipe("Pasta", &[])]);
    assert_eq!(names(&Query::recipes(None, &context)), vec!["Pasta".to_string(), "Salad".to_string()]);
    assert_eq!(
        names(&Query::recipes(Some(Vec::new()), &context)),
        vec!["Pasta".to_string(), "Salad".to_string()]
    );
}

#[test]
fn recipes_with_any_of_the_tags_are_listed_in_order() {
    let context = recipes_only(vec![
        recipe("Curry", &["spicy", "dinner"]),
        recipe("Bread", &["baking"]),
        recipe("Apple pie", &["baking", "dessert"]),
        recipe("Dal", &["dinner"]),
    ]);
    let found = Query::recipes(Some(vec!["dessert".to_string(), "dinner".to_string()]), &context);
    let listed: Vec<&str> = found.iter().map(|r| r.name.as_str()).collect();
    assert_eq!(listed, vec!["Apple pie", "Curry", "Dal"]);
    assert!(Query::recipes(Some(vec!["breakfast".to_string()]), &context).is_empty());
}

#[test]
fn recipe_tags_are_listed_once_in_ascending_order() {
    let context = recipes_only(vec![
        recipe("Curry", &["spicy", "dinner", "spicy"]),
        recipe("Bread", &["baking", "Vegan"]),
        recipe("Dal", &["dinner", "vegan", "éclair", "zest"]),
        recipe("Water", &[]),
    ]);
    let tags: Vec<&str> = Query::recipe_tags(&context).into_iter().map(|t| t.as_str()).collect();
    assert_eq!(tags, vec!["Vegan", "baking", "dinner", "spicy", "vegan", "zest", "éclair"]);
    assert!(Query::recipe_tags(&recipes_only(Vec::new())).is_empty());
}

#[test]
fn reviews_lists_all_reviews() {
    let context = reviews_only(vec![review("B", None), review("A", Some(1))]);
    assert_eq!(Query::reviews(&context), &vec![review("A", Some(1)), review("B", None)]);
}

#[test]
fn unreviewed_films_have_neither_rating_nor_review() {
    let seen = review("Seen", Some(2001));
    let rated = Review { review: None, ..review("Rated", Some(2002)) };
    let written = Review { rating: None, ..review("Written", Some(2003)) };
    let open_a = Review { rating: None, review: None, ..review("Open A", Some(2004)) };
    let open_b = Review { rating: None, review: None, ..review("Open B", None) };
    let context = reviews_only(vec![open_b.clone(), seen, rated, open_a.clone(), written]);
    assert_eq!(Query::unreviewed_films(&context), vec![&open_a, &open_b]);
}

#[test]
fn context_sorts_recipes_by_name_and_keeps_ties_in_order() {
    let context = Context::new(
        vec![
            Ok(recipe("Soup", &["1"])),
            Err(Error::FileReadError("denied".to_string())),
            Ok(recipe("Bread", &["2"])),
            Ok(recipe("Soup", &["3"])),
            Ok(recipe("bread", &["4"])),
            Ok(recipe("Brea", &["5"])),
            Ok(recipe("Été", &["6"])),
        ],
        Vec::new(),
    );
    let order: Vec<(&str, &str)> =
        context.recipes.iter().map(|r| (r.name.as_str(), r.tags[0].as_str())).collect();
    assert_eq!(
        order,
        vec![("Brea", "5"), ("Bread", "2"), ("Soup", "1"), ("Soup", "3"), ("bread", "4"), ("Été", "6")]
    );
    assert!(context.reviews.is_empty());
}

#[test]
fn context_flattens_reviews_and_sorts_by_title_and_year() {
    let context = Context::new(
        Vec::new(),
        vec![
            Ok(Reviews::List(vec![review("Solaris", Some(2002)), review("Alien", Some(1979))])),
            Err(Error::YamlError { path: "reviews/bad.yml".to_string(), error: "bad".to_string() }),
            Ok(Reviews::Single(review("Solaris", None))),
            Ok(Reviews::List(Vec::new())),
            Ok(Reviews::List(vec![review("Solaris", Some(1972)), review("Aliens", Some(1986))])),
        ],
    );
    let order: Vec<(&str, Option<i32>)> =
        context.reviews.iter().map(|r| (r.title.as_str(), r.year)).collect();
    assert_eq!(
        order,
        vec![
            ("Alien", Some(1979)),
            ("Aliens", Some(1986)),
            ("Solaris", None),
            ("Solaris", Some(1972)),
            ("Solaris", Some(2002)),
        ]
    );
    assert!(context.recipes.is_empty());
}

#[test]
fn context_keeps_reviews_that_tie_in_the_order_of_their_files() {
    let first = Review { link: Some("first".to_string()), ..review("Heat", Some(1995)) };
    let second = Review { link: Some("second".to_string()), ..review("Heat", Some(1995)) };
    let context = Context::new(
        Vec::new(),
        vec![Ok(Reviews::Single(first.clone())), Ok(Reviews::Single(second.clone()))],
    );
    assert_eq!(context.reviews, vec![first, second]);
}
