//! Rows of the resources manifest.
use vstd::prelude::*;

verus! {

/// One item of the resources manifest: its identity key and display
/// name.
#[derive(Debug, Clone)]
pub struct Resource {
    pub unique_name: String,
    pub name: String,
}

/// The resources manifest document: its rows.
#[derive(Debug, Clone)]
pub struct Export {
    pub export_resources: Vec<Resource>,
}

} // verus!
