//! Recipes and what they are made of.

use crate::number::Number;
use crate::rank::Ranked;
use crate::text::{
    copy_list, copy_optional, lemma_text_le_order, optional_text, str_lt, text_le, texts,
};
use vstd::prelude::*;

verus! {

/// An ingredient of a recipe.
#[derive(Debug, PartialEq, Eq)]
pub struct Ingredient {
    /// The name of the item.
    pub item: String,
    /// How much of the item is called for.
    pub quantity: Option<String>,
    /// Further notes on this ingredient.
    pub notes: Option<String>,
    /// What may be taken in its place.
    pub substitutes: Vec<String>,
    /// Whether the recipe works without it.
    pub optional: bool,
}

/// What an ingredient says, as plain values.
pub struct IngredientView {
    pub item: Seq<char>,
    pub quantity: Option<Seq<char>>,
    pub notes: Option<Seq<char>>,
    pub substitutes: Seq<Seq<char>>,
    pub optional: bool,
}

impl View for Ingredient {
    type V = IngredientView;

    open spec fn view(&self) -> IngredientView {
        IngredientView {
            item: self.item@,
            quantity: optional_text(self.quantity),
            notes: optional_text(self.notes),
            substitutes: texts(self.substitutes@),
            optional: self.optional,
        }
    }
}

impl Clone for Ingredient {
    fn clone(&self) -> (copy: Self)
        ensures
            copy@ == self@,
    {
        Ingredient {
            item: self.item.clone(),
            quantity: copy_optional(&self.quantity),
            notes: copy_optional(&self.notes),
            substitutes: copy_list(&self.substitutes),
            optional: self.optional,
        }
    }
}

/// What a list of ingredients says, one after the other.
pub open spec fn ingredient_views(list: Seq<Ingredient>) -> Seq<IngredientView> {
    list.map_values(|i: Ingredient| i@)
}

/// A copy of a list of ingredients.
pub fn copy_ingredients(list: &Vec<Ingredient>) -> (copy: Vec<Ingredient>)
    ensures
        ingredient_views(copy@) == ingredient_views(list@),
{
    let mut copy: Vec<Ingredient> = Vec::new();
    let mut i: usize = 0;
    while i < list.len()
        invariant
            i <= list.len(),
            copy@.len() == i,
            forall|k: int| 0 <= k < i ==> (#[trigger] copy@[k])@ == list@[k]@,
        decreases list.len() - i,
    {
        copy.push(list[i].clone());
        i = i + 1;
    }
    proof {
        assert(ingredient_views(copy@) =~= ingredient_views(list@));
    }
    copy
}

/// The ingredients of one component of a recipe.
#[derive(Debug, PartialEq, Eq)]
pub struct IngredientsForComponent {
    /// The name of the component.
    pub component: String,
    /// The ingredients of the component.
    pub ingredients: Vec<Ingredient>,
}

/// What the ingredients of a component say, as plain values.
pub struct ComponentView {
    pub component: Seq<char>,
    pub ingredients: Seq<IngredientView>,
}

impl View for IngredientsForComponent {
    type V = ComponentView;

    open spec fn view(&self) -> ComponentView {
        ComponentView {
            component: self.component@,
            ingredients: ingredient_views(self.ingredients@),
        }
    }
}

impl Clone for IngredientsForComponent {
    fn clone(&self) -> (copy: Self)
        ensures
            copy@ == self@,
    {
        IngredientsForComponent {
            component: self.component.clone(),
            ingredients: copy_ingredients(&self.ingredients),
        }
    }
}

/// The ingredients of a recipe: one plain list for the whole dish, or a list
/// for each named component of it.
#[derive(Clone, Debug, PartialEq, Eq)]
pub enum Ingredients {
    PlainList(Vec<Ingredient>),
    Components(Vec<(String, Vec<Ingredient>)>),
}

impl Ingredients {
    /// No component is named twice.
    pub open spec fn wf(&self) -> bool {
        match self {
            Ingredients::PlainList(_) => true,
            Ingredients::Components(components) => forall|i: int, j: int|
                0 <= i < j < components@.len() ==> (#[trigger] components@[i]).0@ != (
                #[trigger] components@[j]).0@,
        }
    }

    /// Decides `wf`.
    pub fn is_well_formed(&self) -> (ok: bool)
        ensures
            ok == self.wf(),
    {
        match self {
            Ingredients::PlainList(_) => true,
            Ingredients::Components(components) => {
                let mut j: usize = 0;
                while j < components.len()
                    invariant
                        *self == Ingredients::Components(*components),
                        j <= components.len(),
                        forall|a: int, b: int|
                            0 <= a < b < j ==> (#[trigger] components@[a]).0@ != (
                            #[trigger] components@[b]).0@,
                    decreases components.len() - j,
                {
                    let mut i: usize = 0;
                    while i < j
                        invariant
                            *self == Ingredients::Components(*components),
                            i <= j < components.len(),
                            forall|a: int|
                                0 <= a < i ==> (#[trigger] components@[a]).0@ != components@[j as int].0@,
                        decreases j - i,
                    {
                        if components[i].0 == components[j].0 {
                            proof {
                                let a = i as int;
                                let b = j as int;
                                assert(0 <= a < b < components@.len());
                                assert(components@[a].0@ == components@[b].0@);
                                assert(self matches Ingredients::Components(c) && c == *components);
                            }
                            return false;
                        }
                        i = i + 1;
                    }
                    j = j + 1;
                }
                true
            },
        }
    }
}

/// The nutritional values of a recipe.
#[derive(Clone, Debug, PartialEq, Eq)]
pub struct Nutrition {
    /// The number of servings it makes.
    pub servings: Option<i32>,
    /// The size of each serving.
    pub serving_size: Option<String>,
    /// The calories in each serving.
    pub calories: Option<Number>,
    /// The fat, in grams, in each serving.
    pub fat: Option<Number>,
    /// The carbohydrates, in grams, in each serving.
    pub carbs: Option<Number>,
    /// The net carbohydrates, in grams, in each serving.
    pub net_carbs: Option<Number>,
    /// The protein, in grams, in each serving.
    pub protein: Option<Number>,
    /// The fiber, in grams, in each serving.
    pub fiber: Option<Number>,
}

/// A recipe that was kept.
#[derive(Clone, Debug, PartialEq, Eq)]
pub struct Recipe {
    pub name: String,
    pub notes: Option<String>,
    pub tags: Vec<String>,
    pub image: Option<String>,
    pub links: Vec<String>,
    pub steps: Vec<String>,
    pub ingredients: Ingredients,
    pub nutrition: Option<Nutrition>,
}

impl Recipe {
    /// The name of the dish.
    pub fn name(&self) -> (name: &str)
        ensures
            name@ == self.name@,
    {
        self.name.as_str()
    }

    /// Tags to sort recipes by.
    pub fn tags(&self) -> (tags: &Vec<String>)
        ensures
            *tags == self.tags,
    {
        &self.tags
    }

    /// A link to an image of the finished dish.
    pub fn image(&self) -> (image: &Option<String>)
        ensures
            *image == self.image,
    {
        &self.image
    }

    /// Links to where the recipe came from.
    pub fn links(&self) -> (links: &Vec<String>)
        ensures
            *links == self.links,
    {
        &self.links
    }

    /// The steps to cook the dish.
    pub fn steps(&self) -> (steps: &Vec<String>)
        ensures
            *steps == self.steps,
    {
        &self.steps
    }

    /// The nutritional values of the recipe.
    pub fn nutrition(&self) -> (nutrition: &Option<Nutrition>)
        ensures
            *nutrition == self.nutrition,
    {
        &self.nutrition
    }

    /// Whether the recipe carries the tag.
    pub open spec fn has_tag(&self, tag: Seq<char>) -> bool {
        exists|i: int| 0 <= i < self.tags@.len() && (#[trigger] self.tags@[i])@ == tag
    }

    /// The ingredients by component: a plain list counts as one component
    /// named after the dish; named components come in the order in which the
    /// recipe holds them.
    pub open spec fn components(&self) -> Seq<ComponentView> {
        match self.ingredients {
            Ingredients::PlainList(list) => seq![
                ComponentView { component: self.name@, ingredients: ingredient_views(list@) },
            ],
            Ingredients::Components(components) => Seq::new(
                components@.len(),
                |i: int|
                    ComponentView {
                        component: components@[i].0@,
                        ingredients: ingredient_views(components@[i].1@),
                    },
            ),
        }
    }

    /// The ingredients that the recipe needs, by component.
    pub fn ingredients(&self) -> (out: Vec<IngredientsForComponent>)
        ensures
            out@.map_values(|c: IngredientsForComponent| c@) == self.components(),
    {
        let mut out: Vec<IngredientsForComponent> = Vec::new();
        match &self.ingredients {
            Ingredients::PlainList(list) => {
                out.push(
                    IngredientsForComponent {
                        component: self.name.clone(),
                        ingredients: copy_ingredients(list),
                    },
                );
            },
            Ingredients::Components(components) => {
                let mut i: usize = 0;
                while i < components.len()
                    invariant
                        i <= components.len(),
                        out@.len() == i,
                        forall|k: int|
                            0 <= k < i ==> (#[trigger] out@[k])@ == (ComponentView {
                                component: components@[k].0@,
                                ingredients: ingredient_views(components@[k].1@),
                            }),
                    decreases components.len() - i,
                {
                    out.push(
                        IngredientsForComponent {
                            component: components[i].0.clone(),
                            ingredients: copy_ingredients(&components[i].1),
                        },
                    );
                    i = i + 1;
                }
            },
        }
        proof {
            assert(out@.map_values(|c: IngredientsForComponent| c@) =~= self.components());
        }
        out
    }
}

/// Recipes are ranked by name.
impl Ranked for Recipe {
    open spec fn rank_le(&self, other: &Self) -> bool {
        text_le(self.name@, other.name@)
    }

    fn ranks_le(&self, other: &Self) -> (le: bool) {
        self.name == other.name || str_lt(self.name.as_str(), other.name.as_str())
    }

    proof fn rank_total(a: &Self, b: &Self) {
        lemma_text_le_order(a.name@, b.name@, a.name@);
    }

    proof fn rank_transitive(a: &Self, b: &Self, c: &Self) {
        lemma_text_le_order(a.name@, b.name@, c.name@);
    }
}

} // verus!
