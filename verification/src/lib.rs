//! Report-generation support for structured recipes: exact quantity
//! arithmetic, unit-aware merging, reference expansion with cycle
//! detection, scaling by servings or yield, and the small string
//! utilities the report templates use.
use vstd::prelude::*;

pub mod aisle;
pub mod engine;
pub mod error;
pub mod filters;
pub mod grouped;
pub mod ingredient_list;
pub mod key_path;
pub mod numeric;
pub mod pantry;
pub mod quantity;
pub mod rational;
pub mod render;
pub mod scaling;
pub mod text;
