//! The category tag and the error taxonomy of the engine.

use vstd::prelude::*;

verus! {

/// The category an ingredient (and hence a catalog and a recipe) belongs to.
/// It is used purely as a lookup key.
#[derive(Clone, Copy, PartialEq, Eq, Hash, Debug, Structural)]
#[allow(non_camel_case_types)]
pub enum TypeOfIngredient {
    FRUIT,
    VEGETABLE,
}

/// Why an engine or recipe operation failed.
#[derive(Clone, Copy, PartialEq, Eq, Debug, Structural)]
pub enum KitchenError {
    /// The operation referenced a category with no loaded catalog.
    UnknownCategory,
    /// An ingredient was added that the recipe already holds.
    AlreadyPresent,
    /// An ingredient was removed that the recipe does not hold.
    NotPresent,
    /// A recipe member cannot be found in its category's catalog; this marks
    /// catalog/recipe desynchronization, a caller-side contract violation.
    CatalogDesync,
}

} // verus!
