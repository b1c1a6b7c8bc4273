//! Rows of the relic manifest.
use vstd::prelude::*;

verus! {

use crate::relic::Rarity;

/// One reward of a relic: the rewarded item's raw identity key and the
/// rarity it drops at.
#[derive(Debug, Clone)]
pub struct Reward {
    pub reward_name: String,
    pub rarity: Rarity,
}

/// One entry of the relic manifest as published: arcanes share the
/// document with relics and carry no reward list.
#[derive(Debug, Clone)]
pub struct RelicArcane {
    pub unique_name: String,
    pub name: String,
    pub relic_rewards: Option<Vec<Reward>>,
}

/// One relic: its identity key, display name, and reward list.
#[derive(Debug, Clone)]
pub struct Relic {
    pub unique_name: String,
    pub name: String,
    pub relic_rewards: Vec<Reward>,
}

impl Relic {
    /// Reads a manifest entry as a relic; an entry without a reward
    /// list is an arcane, not a relic, and is rejected with its display
    /// name.
    pub fn try_from(value: RelicArcane) -> (r: Result<Relic, String>)
        ensures
            match r {
                Ok(relic) => value.relic_rewards matches Option::Some(rw) && relic.unique_name@
                    == value.unique_name@ && relic.name@ == value.name@ && relic.relic_rewards@
                    == rw@,
                Err(name) => value.relic_rewards is None && name@ == value.name@,
            },
    {
        match value.relic_rewards {
            Option::Some(relic_rewards) => Ok(
                Relic { unique_name: value.unique_name, name: value.name, relic_rewards },
            ),
            Option::None => Err(value.name),
        }
    }
}

/// The relic manifest document: its entries.
#[derive(Debug, Clone)]
pub struct Export {
    pub export_relic_arcane: Vec<RelicArcane>,
}

} // verus!
