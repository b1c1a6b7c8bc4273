//! A recipe enriched with its current reward sources: a prime recipe
//! carries the relics that drop its blueprint, a normal one whether an
//! invasion offers it.
use vstd::prelude::*;

verus! {

use crate::item_view::ItemView;
use crate::item_view::clone_relics;
use crate::item_view::relic_views;
use crate::relic::Rarity;
use crate::relic::Relic;
use crate::relic::relic_sorted_dedup;
use crate::structures::Data;
use crate::structures::active_source;
use crate::structures::all_resolvable;
use crate::structures::lookup_fst_ci;
use crate::structures::resurgence_source;
use crate::structures::types::CommonName;
use crate::structures::types::UniqueName;
use crate::structures::relic_rewards::rewards_for;
use crate::text::contains_seq;
use vstd::string::StringExecFns;

/// Why an item could not be resolved against the store.
#[derive(Debug)]
pub enum ResolveError {
    /// The Recipes index has no result item for this recipe key.
    RecipeResultMissing { recipe_unique_name: String },
    /// The Resources index has no display name for this item key.
    CommonNameMissing { unique_name: String },
    /// The Recipes index has no recipe producing this item.
    NotCraftable { unique_name: String },
}

/// The relic list a prime item carries for the active rotation: ordered
/// and deduplicated; its members are exactly the active sources when
/// every reward row resolves, and none otherwise.
pub open spec fn active_list_for(db: &Data, comp: Seq<char>, list: Seq<(Seq<char>, Rarity)>) -> bool {
    &&& relic_sorted_dedup(list)
    &&& (all_resolvable(rewards_for(db.relic_rewards_v(), comp), db.relics_v()) ==> forall|
        x: (Seq<char>, Rarity),
    |
        #[trigger] list.contains(x) <==> active_source(
            rewards_for(db.relic_rewards_v(), comp),
            db.relics_v(),
            db.active_relics_v(),
            x,
        ))
    &&& (!all_resolvable(rewards_for(db.relic_rewards_v(), comp), db.relics_v()) ==> list.len()
        == 0)
}

/// The relic list a prime item carries for the vendor rotation, under
/// the same regime.
pub open spec fn resurgence_list_for(db: &Data, comp: Seq<char>, list: Seq<(Seq<char>, Rarity)>) -> bool {
    &&& relic_sorted_dedup(list)
    &&& (all_resolvable(rewards_for(db.relic_rewards_v(), comp), db.relics_v()) ==> forall|
        x: (Seq<char>, Rarity),
    |
        #[trigger] list.contains(x) <==> resurgence_source(
            rewards_for(db.relic_rewards_v(), comp),
            db.relics_v(),
            db.resurgence_relics_v(),
            x,
        ))
    &&& (!all_resolvable(rewards_for(db.relic_rewards_v(), comp), db.relics_v()) ==> list.len()
        == 0)
}

/// A prime recipe's reward sources: the relics dropping it this
/// rotation and through the vendor rotation.
#[derive(Debug)]
pub struct PrimeRecipe {
    active_relics: Vec<Relic>,
    resurgence_relics: Vec<Relic>,
}

/// A normal recipe's reward source: whether an invasion offers it.
#[derive(Debug)]
pub struct NormalRecipe {
    pub available_from_invasion: bool,
}

/// How a recipe can currently be obtained: prime recipes come from
/// relics, normal ones from invasions.
#[derive(Debug)]
pub enum RecipeType {
    Normal(NormalRecipe),
    Prime(PrimeRecipe),
}

/// A recipe with its display name, identity key, and current reward
/// sources.
#[derive(Debug)]
pub struct Recipe {
    common_name: CommonName,
    unique_name: UniqueName,
    recipe_type: RecipeType,
}

/// A recipe's fields agree with the store: the item is prime exactly
/// when its display name mentions the prime marker; a prime recipe
/// carries the two relic-source lists for its key, a normal one the
/// invasion flag for its key.
pub open spec fn recipe_matches(db: &Data, r: &Recipe, un: Seq<char>, cn: Seq<char>) -> bool {
    &&& r.common_name_v() == cn
    &&& r.unique_name_v() == un
    &&& (contains_seq(cn, "Prime"@) ==> {
        &&& active_list_for(db, un, r.active_relics_v())
        &&& resurgence_list_for(db, un, r.resurgence_relics_v())
        &&& r.invasion_v() == false
    })
    &&& (!contains_seq(cn, "Prime"@) ==> {
        &&& r.active_relics_v().len() == 0
        &&& r.resurgence_relics_v().len() == 0
        &&& r.invasion_v() == db.invasions_v().contains(un)
    })
}

/// A recipe key resolves when the store knows what it makes and that
/// result item has a display name.
pub open spec fn recipe_resolvable(db: &Data, recipe_un: Seq<char>) -> bool {
    &&& lookup_fst_ci(db.recipes_v(), recipe_un) is Some
    &&& lookup_fst_ci(db.resources_v(), lookup_fst_ci(db.recipes_v(), recipe_un)->Some_0) is Some
}

/// The display name a recipe is shown under: its result item's display
/// name with the blueprint marker appended.
pub open spec fn recipe_display_name(db: &Data, recipe_un: Seq<char>) -> Seq<char> {
    lookup_fst_ci(db.resources_v(), lookup_fst_ci(db.recipes_v(), recipe_un)->Some_0)->Some_0
        + " Blueprint"@
}

impl Recipe {
    /// Builds a recipe from its identity key: the display name is the
    /// result item's display name with the blueprint marker appended.
    /// Fails exactly when the store does not know what the recipe makes,
    /// or knows no display name for that result.
    pub fn new(db: &Data, unique_name: UniqueName) -> (r: Result<Self, ResolveError>)
        ensures
            (r is Ok) == recipe_resolvable(db, unique_name@),
            match r {
                Ok(rec) => recipe_matches(
                    db,
                    &rec,
                    unique_name@,
                    recipe_display_name(db, unique_name@),
                ),
                Err(e) => !recipe_resolvable(db, unique_name@),
            },
    {
        let result_unique_name = match db.recipe_result(unique_name.clone()) {
            Option::Some(result) => result,
            Option::None => {
                return Result::Err(
                    ResolveError::RecipeResultMissing {
                        recipe_unique_name: unique_name.as_str().to_owned(),
                    },
                );
            },
        };
        let common_name = match db.resource_common_name(result_unique_name) {
            Option::Some(cn) => cn,
            Option::None => {
                return Result::Err(
                    ResolveError::CommonNameMissing {
                        unique_name: unique_name.as_str().to_owned(),
                    },
                );
            },
        };
        let blueprint_name = common_name.as_str().to_owned().concat(" Blueprint");
        Result::Ok(Self::with_common_name(db, unique_name, CommonName::new(blueprint_name)))
    }

    /// Builds a recipe under a given display name: a prime recipe takes
    /// its two relic-source lists from the store, with no sources when
    /// some reward row fails to resolve; a normal recipe takes the
    /// invasion flag.
    pub fn with_common_name(db: &Data, unique_name: UniqueName, common_name: CommonName) -> (r:
        Self)
        ensures
            recipe_matches(db, &r, unique_name@, common_name@),
    {
        let recipe_type = if crate::text::contains_str(common_name.as_str(), "Prime") {
            let active_relics = match db.active_relics(unique_name.clone()) {
                Option::Some(v) => v,
                Option::None => Vec::new(),
            };
            let resurgence_relics = match db.resurgence_relics(unique_name.clone()) {
                Option::Some(v) => v,
                Option::None => Vec::new(),
            };
            proof {
                assert(relic_views(active_relics@) =~= active_relics.deep_view());
                assert(relic_views(resurgence_relics@) =~= resurgence_relics.deep_view());
            }
            RecipeType::Prime(PrimeRecipe { active_relics, resurgence_relics })
        } else {
            let available_from_invasion = db.available_from_invasion(unique_name.clone());
            RecipeType::Normal(NormalRecipe { available_from_invasion })
        };
        Recipe { common_name, unique_name, recipe_type }
    }
}

impl ItemView for Recipe {
    closed spec fn common_name_v(&self) -> Seq<char> {
        self.common_name@
    }

    closed spec fn unique_name_v(&self) -> Seq<char> {
        self.unique_name@
    }

    closed spec fn active_relics_v(&self) -> Seq<(Seq<char>, Rarity)> {
        match self.recipe_type {
            RecipeType::Prime(ref pr) => relic_views(pr.active_relics@),
            RecipeType::Normal(_) => Seq::empty(),
        }
    }

    closed spec fn resurgence_relics_v(&self) -> Seq<(Seq<char>, Rarity)> {
        match self.recipe_type {
            RecipeType::Prime(ref pr) => relic_views(pr.resurgence_relics@),
            RecipeType::Normal(_) => Seq::empty(),
        }
    }

    closed spec fn invasion_v(&self) -> bool {
        match self.recipe_type {
            RecipeType::Prime(_) => false,
            RecipeType::Normal(ref nr) => nr.available_from_invasion,
        }
    }

    fn common_name(&self) -> (r: CommonName) {
        self.common_name.clone()
    }

    fn unique_name(&self) -> (r: UniqueName) {
        self.unique_name.clone()
    }

    fn active_relics(&self) -> (r: Vec<Relic>) {
        match &self.recipe_type {
            RecipeType::Prime(pr) => clone_relics(&pr.active_relics),
            RecipeType::Normal(_) => {
                let r: Vec<Relic> = Vec::new();
                proof {
                    assert(relic_views(r@) =~= Seq::<(Seq<char>, Rarity)>::empty());
                }
                r
            },
        }
    }

    fn resurgence_relics(&self) -> (r: Vec<Relic>) {
        match &self.recipe_type {
            RecipeType::Prime(pr) => clone_relics(&pr.resurgence_relics),
            RecipeType::Normal(_) => {
                let r: Vec<Relic> = Vec::new();
                proof {
                    assert(relic_views(r@) =~= Seq::<(Seq<char>, Rarity)>::empty());
                }
                r
            },
        }
    }

    fn available_from_invasion(&self) -> (r: bool) {
        match &self.recipe_type {
            RecipeType::Prime(_) => false,
            RecipeType::Normal(nr) => nr.available_from_invasion,
        }
    }
}

} // verus!
