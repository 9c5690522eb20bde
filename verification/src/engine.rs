//! The orchestrating engine: one configuration, one catalog per category,
//! and at most one current recipe per category.  Mutations delegate to the
//! recipe and recompute its cached ratio against the category's catalog.

use crate::model::{distinct_names, name_set};
use crate::predict::{accepted, distinct_views, predict_search, result_has};
use crate::ratio::Ratio;
use crate::recipe::{mean_of, Recipe};
use crate::table::{
    has_entries_for, lemma_table_of_entries_empty, ratio_table_to_table_per_type, table_of_entries,
    RatioCatalog, RatioEntry,
};
use crate::types::{KitchenError, TypeOfIngredient};
use vstd::prelude::*;

verus! {

/// The acceptance bounds: the ratio range a recipe must meet, and the
/// ingredient-count range of interest to prediction.  `min_ratio <=
/// max_ratio` and `min_ingredients <= max_ingredients` are assumed valid
/// input, not enforced.
#[derive(Clone, Copy, Debug, PartialEq, Eq, Structural)]
pub struct Configuration {
    pub min_ratio: i64,
    pub max_ratio: i64,
    pub min_ingredients: u8,
    pub max_ingredients: u8,
}

/// The ingredient set a recipe slot holds: empty when no recipe exists yet.
pub open spec fn opt_recipe_set(slot: Option<Recipe>) -> Set<Seq<char>> {
    match slot {
        Some(r) => r@,
        None => Set::empty(),
    }
}

/// The cached ratio a recipe slot holds: the zero scalar when no recipe
/// exists yet.
pub open spec fn opt_recipe_ratio(slot: Option<Recipe>) -> Ratio {
    match slot {
        Some(r) => r.cached_ratio(),
        None => Ratio { num: 0, den: 1 },
    }
}

/// Well-formedness of a recipe slot.
pub open spec fn opt_recipe_wf(slot: Option<Recipe>) -> bool {
    match slot {
        Some(r) => r.wf(),
        None => true,
    }
}

/// Well-formedness of a catalog slot.
pub open spec fn opt_table_wf(slot: Option<RatioCatalog>) -> bool {
    match slot {
        Some(c) => c.wf(),
        None => true,
    }
}

/// Adds `ingredient` to the slot's recipe (creating an empty recipe first
/// if none exists), against catalog `table`.  A failed call returns the
/// slot as it was.
fn add_to_slot(table: &RatioCatalog, slot: Option<Recipe>, ingredient: &str) -> (out: (
    Option<Recipe>,
    Result<(), KitchenError>,
))
    requires
        table.wf(),
        opt_recipe_wf(slot),
    ensures
        opt_recipe_wf(out.0),
        opt_recipe_set(slot).contains(ingredient@) ==> out.1 == Err::<(), KitchenError>(
            KitchenError::AlreadyPresent,
        ) && out.0 == slot,
        !opt_recipe_set(slot).contains(ingredient@) && !(opt_recipe_set(slot).insert(ingredient@)
            <= table@.dom()) ==> out.1 == Err::<(), KitchenError>(KitchenError::CatalogDesync)
            && out.0 == slot,
        !opt_recipe_set(slot).contains(ingredient@) && opt_recipe_set(slot).insert(ingredient@)
            <= table@.dom() ==> out.1 == Ok::<(), KitchenError>(()) && out.0 is Some
            && opt_recipe_set(out.0) == opt_recipe_set(slot).insert(ingredient@) && mean_of(
            table@,
            opt_recipe_set(out.0),
            opt_recipe_ratio(out.0),
        ),
{
    match slot {
        None => {
            let mut rec = Recipe::new();
            match rec.add_ingredient_to_recipe(ingredient, table) {
                Ok(()) => (Some(rec), Ok(())),
                Err(e) => (None, Err(e)),
            }
        },
        Some(mut rec) => {
            let ghost rec0 = rec;
            match rec.add_ingredient_to_recipe(ingredient, table) {
                Ok(()) => (Some(rec), Ok(())),
                Err(e) => {
                    proof {
                        assert(rec == rec0);
                    }
                    (Some(rec), Err(e))
                },
            }
        },
    }
}

/// Removes `ingredient` from the slot's recipe, against catalog `table`.
/// A failed call returns the slot as it was; a slot with no recipe holds
/// nothing, so removal from it fails with `NotPresent`.
fn remove_from_slot(table: &RatioCatalog, slot: Option<Recipe>, ingredient: &str) -> (out: (
    Option<Recipe>,
    Result<(), KitchenError>,
))
    requires
        table.wf(),
        opt_recipe_wf(slot),
    ensures
        opt_recipe_wf(out.0),
        !opt_recipe_set(slot).contains(ingredient@) ==> out.1 == Err::<(), KitchenError>(
            KitchenError::NotPresent,
        ) && out.0 == slot,
        opt_recipe_set(slot).contains(ingredient@) && !(opt_recipe_set(slot).remove(ingredient@)
            <= table@.dom()) ==> out.1 == Err::<(), KitchenError>(KitchenError::CatalogDesync)
            && out.0 == slot,
        opt_recipe_set(slot).contains(ingredient@) && opt_recipe_set(slot).remove(ingredient@)
            <= table@.dom() ==> out.1 == Ok::<(), KitchenError>(()) && out.0 is Some
            && opt_recipe_set(out.0) == opt_recipe_set(slot).remove(ingredient@) && mean_of(
            table@,
            opt_recipe_set(out.0),
            opt_recipe_ratio(out.0),
        ),
{
    match slot {
        None => (None, Err(KitchenError::NotPresent)),
        Some(mut rec) => {
            let ghost rec0 = rec;
            match rec.remove_ingredient_from_recipe(ingredient, table) {
                Ok(()) => (Some(rec), Ok(())),
                Err(e) => {
                    proof {
                        assert(rec == rec0);
                    }
                    (Some(rec), Err(e))
                },
            }
        },
    }
}

/// The engine: one configuration, one catalog slot and one recipe slot per
/// category.
pub struct KitchenAi {
    config: Configuration,
    fruit_table: Option<RatioCatalog>,
    vegetable_table: Option<RatioCatalog>,
    fruit_recipe: Option<Recipe>,
    vegetable_recipe: Option<Recipe>,
}

impl KitchenAi {
    /// The engine's configuration.
    pub closed spec fn config_spec(&self) -> Configuration {
        self.config
    }

    /// The catalog slot of category `t`.
    pub closed spec fn table_opt(&self, t: TypeOfIngredient) -> Option<RatioCatalog> {
        match t {
            TypeOfIngredient::FRUIT => self.fruit_table,
            TypeOfIngredient::VEGETABLE => self.vegetable_table,
        }
    }

    /// The recipe slot of category `t`.
    pub closed spec fn recipe_opt(&self, t: TypeOfIngredient) -> Option<Recipe> {
        match t {
            TypeOfIngredient::FRUIT => self.fruit_recipe,
            TypeOfIngredient::VEGETABLE => self.vegetable_recipe,
        }
    }

    /// Whether a catalog was loaded for category `t`.
    pub open spec fn has_table(&self, t: TypeOfIngredient) -> bool {
        self.table_opt(t) is Some
    }

    /// The catalog map of category `t` (empty when none was loaded).
    pub open spec fn table_view(&self, t: TypeOfIngredient) -> Map<Seq<char>, int> {
        match self.table_opt(t) {
            Some(c) => c@,
            None => Map::empty(),
        }
    }

    /// Whether category `t` has a current recipe.
    pub open spec fn has_recipe(&self, t: TypeOfIngredient) -> bool {
        self.recipe_opt(t) is Some
    }

    /// The current ingredient set of category `t` (empty when no recipe
    /// exists yet).
    pub open spec fn current_set(&self, t: TypeOfIngredient) -> Set<Seq<char>> {
        opt_recipe_set(self.recipe_opt(t))
    }

    /// The current cached ratio of category `t` (the zero scalar when no
    /// recipe exists yet).
    pub open spec fn current_ratio(&self, t: TypeOfIngredient) -> Ratio {
        opt_recipe_ratio(self.recipe_opt(t))
    }

    /// Every held catalog and recipe is well formed.
    pub open spec fn wf(&self) -> bool {
        &&& opt_table_wf(self.table_opt(TypeOfIngredient::FRUIT))
        &&& opt_table_wf(self.table_opt(TypeOfIngredient::VEGETABLE))
        &&& opt_recipe_wf(self.recipe_opt(TypeOfIngredient::FRUIT))
        &&& opt_recipe_wf(self.recipe_opt(TypeOfIngredient::VEGETABLE))
    }

    /// The current ratio is always a well-formed scalar.
    pub proof fn lemma_current_ratio_wf(&self, t: TypeOfIngredient)
        requires
            self.wf(),
        ensures
            self.current_ratio(t).wf(),
            self.current_set(t).finite(),
    {
        match self.recipe_opt(t) {
            Some(rec) => {
                rec.lemma_view();
            },
            None => {},
        }
    }

    /// A fresh engine: the given bounds, no catalogs, no recipes.
    pub fn new_with_config(config: Configuration) -> (ai: KitchenAi)
        ensures
            ai.wf(),
            ai.config_spec() == config,
            forall|t: TypeOfIngredient| !(#[trigger] ai.has_table(t)),
            forall|t: TypeOfIngredient| !(#[trigger] ai.has_recipe(t)),
    {
        KitchenAi {
            config,
            fruit_table: None,
            vegetable_table: None,
            fruit_recipe: None,
            vegetable_recipe: None,
        }
    }

    /// Replaces all catalogs with the ones a ratio table loads: one catalog
    /// per category that has entries, none for a category without.  Current
    /// recipes are kept as they are.
    pub fn load_tables(&mut self, entries: &Vec<RatioEntry>)
        requires
            old(self).wf(),
        ensures
            final(self).wf(),
            final(self).config_spec() == old(self).config_spec(),
            forall|t: TypeOfIngredient| final(self).recipe_opt(t) == old(self).recipe_opt(t),
            forall|t: TypeOfIngredient| #[trigger]
                final(self).has_table(t) == has_entries_for(entries@, t),
            forall|t: TypeOfIngredient| #[trigger]
                final(self).table_view(t) == table_of_entries(entries@, t),
    {
        let (fruit, vegetable) = ratio_table_to_table_per_type(entries);
        self.fruit_table = fruit;
        self.vegetable_table = vegetable;
        proof {
            assert forall|t: TypeOfIngredient| #[trigger]
                self.table_view(t) == table_of_entries(entries@, t) by {
                if !has_entries_for(entries@, t) {
                    lemma_table_of_entries_empty(entries@, t);
                    assert(self.table_view(t) =~= table_of_entries(entries@, t));
                }
            }
        }
    }

    /// The names the catalog of category `t` offers, or `UnknownCategory`
    /// if no catalog was loaded for it.
    pub fn get_ingredients_from_table(&self, type_of_ingredient: &TypeOfIngredient) -> (r: Result<
        Vec<String>,
        KitchenError,
    >)
        requires
            self.wf(),
        ensures
            match r {
                Ok(names) => self.has_table(*type_of_ingredient) && distinct_names(names@)
                    && name_set(names@) == self.table_view(*type_of_ingredient).dom(),
                Err(e) => e == KitchenError::UnknownCategory && !self.has_table(
                    *type_of_ingredient,
                ),
            },
    {
        let slot = match type_of_ingredient {
            TypeOfIngredient::FRUIT => &self.fruit_table,
            TypeOfIngredient::VEGETABLE => &self.vegetable_table,
        };
        match slot {
            None => Err(KitchenError::UnknownCategory),
            Some(c) => Ok(c.names()),
        }
    }

    /// The current recipe of category `t`, or `None` when no ingredient was
    /// ever added to it.
    pub fn get_recipe(&self, type_of_ingredient: &TypeOfIngredient) -> (r: Option<&Recipe>)
        ensures
            r matches Some(rec) ==> self.recipe_opt(*type_of_ingredient) == Some(*rec),
            r is None ==> !self.has_recipe(*type_of_ingredient),
    {
        let slot = match type_of_ingredient {
            TypeOfIngredient::FRUIT => &self.fruit_recipe,
            TypeOfIngredient::VEGETABLE => &self.vegetable_recipe,
        };
        match slot {
            None => None,
            Some(rec) => Some(rec),
        }
    }

    /// Adds `ingredient` to the current recipe of the category, creating an
    /// empty recipe first if none exists.  Fails with `UnknownCategory` when
    /// the category has no catalog, `AlreadyPresent` when the ingredient is
    /// already selected, and `CatalogDesync` when recipe and catalog have
    /// come apart; a failed call changes no recipe.
    pub fn add_ingredient(&mut self, type_of_ingredient: &TypeOfIngredient, ingredient: &str) -> (r:
        Result<(), KitchenError>)
        requires
            old(self).wf(),
        ensures
            final(self).wf(),
            final(self).config_spec() == old(self).config_spec(),
            forall|t2: TypeOfIngredient| #[trigger]
                final(self).table_opt(t2) == old(self).table_opt(t2),
            forall|t2: TypeOfIngredient|
                t2 != *type_of_ingredient ==> #[trigger] final(self).recipe_opt(t2) == old(
                    self,
                ).recipe_opt(t2),
            !old(self).has_table(*type_of_ingredient) ==> r == Err::<(), KitchenError>(
                KitchenError::UnknownCategory,
            ) && final(self).recipe_opt(*type_of_ingredient) == old(self).recipe_opt(
                *type_of_ingredient,
            ),
            old(self).has_table(*type_of_ingredient) && old(self).current_set(
                *type_of_ingredient,
            ).contains(ingredient@) ==> r == Err::<(), KitchenError>(KitchenError::AlreadyPresent)
                && final(self).recipe_opt(*type_of_ingredient) == old(self).recipe_opt(
                *type_of_ingredient,
            ),
            old(self).has_table(*type_of_ingredient) && !old(self).current_set(
                *type_of_ingredient,
            ).contains(ingredient@) && !(old(self).current_set(*type_of_ingredient).insert(
                ingredient@,
            ) <= old(self).table_view(*type_of_ingredient).dom()) ==> r == Err::<(), KitchenError>(
                KitchenError::CatalogDesync,
            ) && final(self).recipe_opt(*type_of_ingredient) == old(self).recipe_opt(
                *type_of_ingredient,
            ),
            old(self).has_table(*type_of_ingredient) && !old(self).current_set(
                *type_of_ingredient,
            ).contains(ingredient@) && old(self).current_set(*type_of_ingredient).insert(
                ingredient@,
            ) <= old(self).table_view(*type_of_ingredient).dom() ==> r == Ok::<(), KitchenError>(())
                && final(self).has_recipe(*type_of_ingredient) && final(self).current_set(
                *type_of_ingredient,
            ) == old(self).current_set(*type_of_ingredient).insert(ingredient@) && mean_of(
                old(self).table_view(*type_of_ingredient),
                final(self).current_set(*type_of_ingredient),
                final(self).current_ratio(*type_of_ingredient),
            ),
    {
        match type_of_ingredient {
            TypeOfIngredient::FRUIT => {
                match &self.fruit_table {
                    None => Err(KitchenError::UnknownCategory),
                    Some(c) => {
                        let slot = self.fruit_recipe.take();
                        let (slot2, r) = add_to_slot(c, slot, ingredient);
                        self.fruit_recipe = slot2;
                        r
                    },
                }
            },
            TypeOfIngredient::VEGETABLE => {
                match &self.vegetable_table {
                    None => Err(KitchenError::UnknownCategory),
                    Some(c) => {
                        let slot = self.vegetable_recipe.take();
                        let (slot2, r) = add_to_slot(c, slot, ingredient);
                        self.vegetable_recipe = slot2;
                        r
                    },
                }
            },
        }
    }

    /// Removes `ingredient` from the current recipe of the category.  Fails
    /// with `UnknownCategory` when the category has no catalog, `NotPresent`
    /// when the ingredient is not selected, and `CatalogDesync` when recipe
    /// and catalog have come apart; a failed call changes no recipe.
    pub fn remove_ingredient(
        &mut self,
        type_of_ingredient: &TypeOfIngredient,
        ingredient: &str,
    ) -> (r: Result<(), KitchenError>)
        requires
            old(self).wf(),
        ensures
            final(self).wf(),
            final(self).config_spec() == old(self).config_spec(),
            forall|t2: TypeOfIngredient| #[trigger]
                final(self).table_opt(t2) == old(self).table_opt(t2),
            forall|t2: TypeOfIngredient|
                t2 != *type_of_ingredient ==> #[trigger] final(self).recipe_opt(t2) == old(
                    self,
                ).recipe_opt(t2),
            !old(self).has_table(*type_of_ingredient) ==> r == Err::<(), KitchenError>(
                KitchenError::UnknownCategory,
            ) && final(self).recipe_opt(*type_of_ingredient) == old(self).recipe_opt(
                *type_of_ingredient,
            ),
            old(self).has_table(*type_of_ingredient) && !old(self).current_set(
                *type_of_ingredient,
            ).contains(ingredient@) ==> r == Err::<(), KitchenError>(KitchenError::NotPresent)
                && final(self).recipe_opt(*type_of_ingredient) == old(self).recipe_opt(
                *type_of_ingredient,
            ),
            old(self).has_table(*type_of_ingredient) && old(self).current_set(
                *type_of_ingredient,
            ).contains(ingredient@) && !(old(self).current_set(*type_of_ingredient).remove(
                ingredient@,
            ) <= old(self).table_view(*type_of_ingredient).dom()) ==> r == Err::<(), KitchenError>(
                KitchenError::CatalogDesync,
            ) && final(self).recipe_opt(*type_of_ingredient) == old(self).recipe_opt(
                *type_of_ingredient,
            ),
            old(self).has_table(*type_of_ingredient) && old(self).current_set(
                *type_of_ingredient,
            ).contains(ingredient@) && old(self).current_set(*type_of_ingredient).remove(
                ingredient@,
            ) <= old(self).table_view(*type_of_ingredient).dom() ==> r == Ok::<(), KitchenError>(())
                && final(self).has_recipe(*type_of_ingredient) && final(self).current_set(
                *type_of_ingredient,
            ) == old(self).current_set(*type_of_ingredient).remove(ingredient@) && mean_of(
                old(self).table_view(*type_of_ingredient),
                final(self).current_set(*type_of_ingredient),
                final(self).current_ratio(*type_of_ingredient),
            ),
    {
        match type_of_ingredient {
            TypeOfIngredient::FRUIT => {
                match &self.fruit_table {
                    None => Err(KitchenError::UnknownCategory),
                    Some(c) => {
                        let slot = self.fruit_recipe.take();
                        let (slot2, r) = remove_from_slot(c, slot, ingredient);
                        self.fruit_recipe = slot2;
                        r
                    },
                }
            },
            TypeOfIngredient::VEGETABLE => {
                match &self.vegetable_table {
                    None => Err(KitchenError::UnknownCategory),
                    Some(c) => {
                        let slot = self.vegetable_recipe.take();
                        let (slot2, r) = remove_from_slot(c, slot, ingredient);
                        self.vegetable_recipe = slot2;
                        r
                    },
                }
            },
        }
    }

    /// Enumerates every distinct ingredient set reachable from the current
    /// recipe of the category — by adding catalog ingredients one at a time
    /// — that meets the configured size and ratio bounds.  Each accepted set
    /// appears exactly once, whatever the number of orders in which it can
    /// be reached.  Fails with `UnknownCategory` when the category has no
    /// catalog, and with `CatalogDesync` when the current recipe holds an
    /// ingredient the catalog does not know.
    pub fn predict(&self, type_of_ingredient: &TypeOfIngredient) -> (r: Result<
        Vec<Recipe>,
        KitchenError,
    >)
        requires
            self.wf(),
        ensures
            match r {
                Ok(out) => self.has_table(*type_of_ingredient) && self.current_set(
                    *type_of_ingredient,
                ) <= self.table_view(*type_of_ingredient).dom() && (forall|s: Set<Seq<char>>|
                    #[trigger] result_has(out@, s) ==> accepted(
                        self.table_view(*type_of_ingredient),
                        self.config_spec(),
                        self.current_set(*type_of_ingredient),
                        s,
                    )) && (forall|s: Set<Seq<char>>| #[trigger]
                    accepted(
                        self.table_view(*type_of_ingredient),
                        self.config_spec(),
                        self.current_set(*type_of_ingredient),
                        s,
                    ) ==> result_has(out@, s)) && (forall|i: int|
                    0 <= i < out@.len() ==> (#[trigger] out@[i]).wf() && mean_of(
                        self.table_view(*type_of_ingredient),
                        out@[i]@,
                        out@[i].cached_ratio(),
                    )) && distinct_views(out@),
                Err(e) => {
                    &&& !self.has_table(*type_of_ingredient) ==> e == KitchenError::UnknownCategory
                    &&& self.has_table(*type_of_ingredient) ==> e == KitchenError::CatalogDesync
                        && !(self.current_set(*type_of_ingredient) <= self.table_view(
                        *type_of_ingredient,
                    ).dom())
                },
            },
    {
        let tbl = match type_of_ingredient {
            TypeOfIngredient::FRUIT => &self.fruit_table,
            TypeOfIngredient::VEGETABLE => &self.vegetable_table,
        };
        match tbl {
            None => Err(KitchenError::UnknownCategory),
            Some(c) => {
                let slot = match type_of_ingredient {
                    TypeOfIngredient::FRUIT => &self.fruit_recipe,
                    TypeOfIngredient::VEGETABLE => &self.vegetable_recipe,
                };
                let cur: Recipe = match slot {
                    None => Recipe::new(),
                    Some(rec) => rec.duplicate(),
                };
                if !cur.members_in_table(c) {
                    return Err(KitchenError::CatalogDesync);
                }
                Ok(predict_search(c, &self.config, &cur))
            },
        }
    }

    /// The current cached ratio of the category: the zero scalar when no
    /// recipe exists yet.  Never fails.
    pub fn get_ratio(&self, type_of_ingredient: &TypeOfIngredient) -> (r: Ratio)
        ensures
            r == self.current_ratio(*type_of_ingredient),
    {
        let slot = match type_of_ingredient {
            TypeOfIngredient::FRUIT => &self.fruit_recipe,
            TypeOfIngredient::VEGETABLE => &self.vegetable_recipe,
        };
        match slot {
            None => Ratio { num: 0, den: 1 },
            Some(rec) => rec.get_ratio(),
        }
    }

    /// Whether the current ratio lies within the configured range,
    /// inclusive at both ends.  A category with no recipe has the zero
    /// scalar as its ratio and is valid exactly when zero is in range.
    pub fn is_valid(&self, type_of_ingredient: &TypeOfIngredient) -> (r: bool)
        requires
            self.wf(),
        ensures
            r == self.current_ratio(*type_of_ingredient).in_range(
                self.config_spec().min_ratio as int,
                self.config_spec().max_ratio as int,
            ),
    {
        proof {
            self.lemma_current_ratio_wf(*type_of_ingredient);
        }
        let ratio = self.get_ratio(type_of_ingredient);
        ratio.check_in_range(self.config.min_ratio, self.config.max_ratio)
    }
}

} // verus!
