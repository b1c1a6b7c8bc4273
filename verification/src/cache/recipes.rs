//! Rows of the recipes manifest.
use vstd::prelude::*;

verus! {

/// One ingredient of a recipe: the required item's identity key and how
/// many units the recipe needs.
#[derive(Debug, Clone)]
pub struct Ingredient {
    pub item_type: String,
    pub item_count: u32,
}

/// One recipe of the recipes manifest: its identity key, what it makes,
/// and its ingredient list.
#[derive(Debug, Clone)]
pub struct Recipe {
    pub unique_name: String,
    pub result_type: String,
    pub ingredients: Vec<Ingredient>,
}

/// The recipes manifest document: its rows.
#[derive(Debug, Clone)]
pub struct Export {
    pub export_recipes: Vec<Recipe>,
}

} // verus!
