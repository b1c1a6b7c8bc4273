//! Parsers for the manifest exports and the auxiliary feeds: typed rows
//! out of what the remote catalog publishes.

pub mod droptable;
pub mod index;
pub mod recipes;
pub mod refresh;
pub mod relics;
pub mod resources;
pub mod warframes;
pub mod weapons;
pub mod worldstate;
