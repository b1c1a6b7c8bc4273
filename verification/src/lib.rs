//! A local, queryable mirror of a remotely published game content catalog.
//!
//! The crate keeps a cache of manifest exports fresh against a remote index,
//! ingests the manifests into a small set of relational indices keyed by
//! interned text handles, and answers structural queries against them:
//! which components a recipe needs, and through which currently active
//! reward sources a component can be obtained.

pub mod cache;
pub mod interner;
pub mod item_view;
pub mod recipe;
pub mod relic;
pub mod requirement;
pub mod structures;
pub mod text;
pub mod tracking;
