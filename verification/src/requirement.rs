//! One requirement of a recipe, enriched with its own reward sources:
//! a craftable requirement carries its sub-recipe, a raw one its
//! component sources.
use vstd::prelude::*;

verus! {

use crate::item_view::ItemView;
use crate::item_view::clone_relics;
use crate::item_view::relic_views;
use crate::recipe::Recipe;
use crate::recipe::ResolveError;
use crate::recipe::active_list_for;
use crate::recipe::recipe_display_name;
use crate::recipe::recipe_matches;
use crate::recipe::recipe_resolvable;
use crate::recipe::resurgence_list_for;
use crate::relic::Rarity;
use crate::relic::Relic;
use crate::structures::Data;
use crate::structures::lookup_fst_ci;
use crate::structures::matches_snd_exact;
use crate::structures::types::CommonName;
use crate::structures::types::UniqueName;
use crate::text::contains_seq;

/// A raw component's reward sources: prime components drop from
/// relics, normal ones from invasions.
#[derive(Debug)]
pub enum Component {
    Normal(NormalComponent),
    Prime(PrimeComponent),
}

/// A normal component's reward source: whether an invasion offers it.
#[derive(Debug)]
pub struct NormalComponent {
    pub available_from_invasion: bool,
}

/// A prime component's reward sources: the relics dropping it this
/// rotation and through the vendor rotation.
#[derive(Debug)]
pub struct PrimeComponent {
    active_relics: Vec<Relic>,
    resurgence_relics: Vec<Relic>,
}

impl Component {
    /// The relic sources this component shows for the active rotation.
    pub closed spec fn active_v(&self) -> Seq<(Seq<char>, Rarity)> {
        match self {
            Component::Prime(pc) => relic_views(pc.active_relics@),
            Component::Normal(_) => Seq::empty(),
        }
    }

    /// The relic sources this component shows for the vendor rotation.
    pub closed spec fn resurgence_v(&self) -> Seq<(Seq<char>, Rarity)> {
        match self {
            Component::Prime(pc) => relic_views(pc.resurgence_relics@),
            Component::Normal(_) => Seq::empty(),
        }
    }

    /// Whether this component shows an invasion source.
    pub closed spec fn invasion_v(&self) -> bool {
        match self {
            Component::Prime(_) => false,
            Component::Normal(nc) => nc.available_from_invasion,
        }
    }
}

/// A component's fields agree with the store, under its display name:
/// a prime component carries the two relic-source lists for its key, a
/// normal one the invasion flag.
pub open spec fn component_matches(db: &Data, c: &Component, un: Seq<char>, cn: Seq<char>) -> bool {
    &&& (contains_seq(cn, "Prime"@) ==> {
        &&& c is Prime
        &&& active_list_for(db, un, c.active_v())
        &&& resurgence_list_for(db, un, c.resurgence_v())
    })
    &&& (!contains_seq(cn, "Prime"@) ==> {
        &&& c is Normal
        &&& c.invasion_v() == db.invasions_v().contains(un)
    })
}

impl Component {
    /// Builds a raw component's sources: prime when the display name
    /// mentions the prime marker, with the relic lists for its key and
    /// no sources when some reward row fails to resolve; normal
    /// otherwise, with the invasion flag.
    pub fn new(unique_name: UniqueName, common_name: CommonName, db: &Data) -> (r: Self)
        ensures
            component_matches(db, &r, unique_name@, common_name@),
    {
        if crate::text::contains_str(common_name.as_str(), "Prime") {
            let active_relics = match db.active_relics(unique_name.clone()) {
                Option::Some(v) => v,
                Option::None => Vec::new(),
            };
            let resurgence_relics = match db.resurgence_relics(unique_name.clone()) {
                Option::Some(v) => v,
                Option::None => Vec::new(),
            };
            proof {
                assert(relic_views(active_relics@) =~= active_relics.deep_view());
                assert(relic_views(resurgence_relics@) =~= resurgence_relics.deep_view());
            }
            Component::Prime(PrimeComponent { active_relics, resurgence_relics })
        } else {
            let available_from_invasion = db.available_from_invasion(unique_name);
            Component::Normal(NormalComponent { available_from_invasion })
        }
    }
}

/// How a requirement is obtained: a craftable one through its own
/// recipe, a raw one as a component.
#[derive(Debug)]
enum RequirementType {
    Component(Component),
    CraftComponent(Recipe),
}

/// One requirement of a recipe, with its display name, identity key,
/// and reward sources.
#[derive(Debug)]
pub struct Requirement {
    common_name: CommonName,
    unique_name: UniqueName,
    requirement_type: RequirementType,
}

/// A requirement key resolves when its item has a display name and,
/// when some recipe produces the item, the first such recipe resolves.
pub open spec fn requirement_resolvable(db: &Data, un: Seq<char>) -> bool {
    &&& lookup_fst_ci(db.resources_v(), un) is Some
    &&& (matches_snd_exact(db.recipes_v(), un).len() > 0 ==> recipe_resolvable(
        db,
        matches_snd_exact(db.recipes_v(), un)[0],
    ))
}

/// A requirement's fields agree with the store: it shows its item's
/// display name; a craftable requirement shows its first recipe's
/// reward sources, a raw one its component's.
pub open spec fn requirement_matches(db: &Data, r: &Requirement, un: Seq<char>) -> bool {
    let cn = lookup_fst_ci(db.resources_v(), un)->Some_0;
    let producers = matches_snd_exact(db.recipes_v(), un);
    &&& r.unique_name_v() == un
    &&& r.common_name_v() == cn
    &&& (producers.len() > 0 ==> {
        let bp = recipe_display_name(db, producers[0]);
        &&& (contains_seq(bp, "Prime"@) ==> {
            &&& active_list_for(db, producers[0], r.active_relics_v())
            &&& resurgence_list_for(db, producers[0], r.resurgence_relics_v())
            &&& r.invasion_v() == false
        })
        &&& (!contains_seq(bp, "Prime"@) ==> {
            &&& r.active_relics_v().len() == 0
            &&& r.resurgence_relics_v().len() == 0
            &&& r.invasion_v() == db.invasions_v().contains(producers[0])
        })
    })
    &&& (producers.len() == 0 ==> {
        &&& (contains_seq(cn, "Prime"@) ==> {
            &&& active_list_for(db, un, r.active_relics_v())
            &&& resurgence_list_for(db, un, r.resurgence_relics_v())
            &&& r.invasion_v() == false
        })
        &&& (!contains_seq(cn, "Prime"@) ==> {
            &&& r.active_relics_v().len() == 0
            &&& r.resurgence_relics_v().len() == 0
            &&& r.invasion_v() == db.invasions_v().contains(un)
        })
    })
}

impl Requirement {
    /// Resolves one requirement: looks up its display name, then
    /// enriches it as a sub-recipe when some recipe produces it, and as
    /// a raw component otherwise.  Fails exactly when the display name
    /// is missing or the first producing recipe does not resolve.
    pub fn new(unique_name: UniqueName, db: &Data) -> (r: Result<Self, ResolveError>)
        ensures
            (r is Ok) == requirement_resolvable(db, unique_name@),
            match r {
                Ok(req) => requirement_matches(db, &req, unique_name@),
                Err(e) => !requirement_resolvable(db, unique_name@),
            },
    {
        let common_name = match db.resource_common_name(unique_name.clone()) {
            Option::Some(cn) => cn,
            Option::None => {
                return Result::Err(
                    ResolveError::CommonNameMissing {
                        unique_name: unique_name.as_str().to_owned(),
                    },
                );
            },
        };
        let requirement_type = match db.recipe(unique_name.clone()) {
            Option::Some(recipe_unique_name) => {
                let recipe = match Recipe::new(db, recipe_unique_name) {
                    Ok(rec) => rec,
                    Err(e) => {
                        return Result::Err(e);
                    },
                };
                RequirementType::CraftComponent(recipe)
            },
            Option::None => {
                let component = Component::new(unique_name.clone(), common_name.clone(), db);
                RequirementType::Component(component)
            },
        };
        Result::Ok(Requirement { common_name, unique_name, requirement_type })
    }
}

impl ItemView for Requirement {
    closed spec fn common_name_v(&self) -> Seq<char> {
        self.common_name@
    }

    closed spec fn unique_name_v(&self) -> Seq<char> {
        self.unique_name@
    }

    closed spec fn active_relics_v(&self) -> Seq<(Seq<char>, Rarity)> {
        match self.requirement_type {
            RequirementType::Component(ref c) => c.active_v(),
            RequirementType::CraftComponent(ref rec) => rec.active_relics_v(),
        }
    }

    closed spec fn resurgence_relics_v(&self) -> Seq<(Seq<char>, Rarity)> {
        match self.requirement_type {
            RequirementType::Component(ref c) => c.resurgence_v(),
            RequirementType::CraftComponent(ref rec) => rec.resurgence_relics_v(),
        }
    }

    closed spec fn invasion_v(&self) -> bool {
        match self.requirement_type {
            RequirementType::Component(ref c) => c.invasion_v(),
            RequirementType::CraftComponent(ref rec) => rec.invasion_v(),
        }
    }

    fn common_name(&self) -> (r: CommonName) {
        self.common_name.clone()
    }

    fn unique_name(&self) -> (r: UniqueName) {
        self.unique_name.clone()
    }

    fn active_relics(&self) -> (r: Vec<Relic>) {
        match &self.requirement_type {
            RequirementType::Component(c) => match c {
                Component::Prime(pc) => clone_relics(&pc.active_relics),
                Component::Normal(_) => {
                    let r: Vec<Relic> = Vec::new();
                    proof {
                        assert(relic_views(r@) =~= Seq::<(Seq<char>, Rarity)>::empty());
                    }
                    r
                },
            },
            RequirementType::CraftComponent(rec) => rec.active_relics(),
        }
    }

    fn resurgence_relics(&self) -> (r: Vec<Relic>) {
        match &self.requirement_type {
            RequirementType::Component(c) => match c {
                Component::Prime(pc) => clone_relics(&pc.resurgence_relics),
                Component::Normal(_) => {
                    let r: Vec<Relic> = Vec::new();
                    proof {
                        assert(relic_views(r@) =~= Seq::<(Seq<char>, Rarity)>::empty());
                    }
                    r
                },
            },
            RequirementType::CraftComponent(rec) => rec.resurgence_relics(),
        }
    }

    fn available_from_invasion(&self) -> (r: bool) {
        match &self.requirement_type {
            RequirementType::Component(c) => match c {
                Component::Prime(_) => false,
                Component::Normal(nc) => nc.available_from_invasion,
            },
            RequirementType::CraftComponent(rec) => rec.available_from_invasion(),
        }
    }
}

} // verus!
