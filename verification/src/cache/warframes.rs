//! Rows of the warframes manifest.
use vstd::prelude::*;

verus! {

/// One warframe of the warframes manifest: its identity key, display
/// name, and product category.
#[derive(Debug, Clone)]
pub struct Warframe {
    pub unique_name: String,
    pub name: String,
    pub product_category: String,
}

/// The warframes manifest document: its rows.
#[derive(Debug, Clone)]
pub struct Export {
    pub export_warframes: Vec<Warframe>,
}

} // verus!
