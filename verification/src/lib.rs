//! A recipe-planning engine: per-category catalogs of ingredient ratios,
//! incremental recipe mutation with an always-consistent cached mean ratio,
//! and an exhaustive, deduplicated prediction of all valid recipe extensions.

pub mod engine;
pub mod laws;
pub mod model;
pub mod predict;
pub mod ratio;
pub mod recipe;
pub mod table;
pub mod types;

pub use engine::{Configuration, KitchenAi};
pub use ratio::Ratio;
pub use recipe::Recipe;
pub use table::{RatioCatalog, RatioEntry};
pub use types::{KitchenError, TypeOfIngredient};
