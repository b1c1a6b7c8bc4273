//! Rows of the weapons manifest.
use vstd::prelude::*;

verus! {

/// One weapon of the weapons manifest: its identity key and display
/// name.
#[derive(Debug, Clone)]
pub struct Weapon {
    pub unique_name: String,
    pub name: String,
}

/// The weapons manifest document: its rows.
#[derive(Debug, Clone)]
pub struct Export {
    pub export_weapons: Vec<Weapon>,
}

} // verus!
