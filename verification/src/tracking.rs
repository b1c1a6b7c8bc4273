//! A tracked item: every recipe that produces it, each with its
//! resolved, ordered requirement list.
use vstd::prelude::*;

verus! {

use crate::recipe::Recipe;
use crate::recipe::ResolveError;
use crate::recipe::recipe_display_name;
use crate::recipe::recipe_matches;
use crate::recipe::recipe_resolvable;
use crate::requirement::Requirement;
use crate::requirement::requirement_matches;
use crate::requirement::requirement_resolvable;
use crate::structures::Data;
use crate::structures::lookup_fst_ci;
use crate::structures::matches_snd_exact;
use crate::structures::requires_index::req_pair_view;
use crate::structures::requires_index::req_sorted;
use crate::structures::requires_index::reqs_for;
use crate::structures::types::CommonName;
use crate::structures::types::Count;
use crate::structures::types::UniqueName;
use crate::item_view::ItemView;

/// An item can be tracked when it has a display name, at least one
/// recipe produces it, every such recipe resolves, and every
/// requirement of every such recipe resolves.
pub open spec fn trackable(db: &Data, un: Seq<char>) -> bool {
    let producers = matches_snd_exact(db.recipes_v(), un);
    &&& lookup_fst_ci(db.resources_v(), un) is Some
    &&& producers.len() > 0
    &&& forall|k: int| 0 <= k < producers.len() ==> recipe_resolvable(db, #[trigger] producers[k])
    &&& forall|k: int, j: int|
        0 <= k < producers.len() && 0 <= j < reqs_for(db.requires_v(), producers[k]).len()
            ==> requirement_resolvable(
            db,
            (#[trigger] reqs_for(db.requires_v(), producers[k])[j]).0,
        )
}

/// One resolved requirement list agrees with the store: it is ordered
/// ascending by count then ingredient key, holds exactly the recipe's
/// requirement rows, and each entry resolves its requirement.
pub open spec fn components_match(
    db: &Data,
    recipe_un: Seq<char>,
    comps: Seq<(Requirement, Count)>,
) -> bool {
    let views = comps.map_values(|p: (Requirement, Count)| (p.0.unique_name_v(), p.1.0));
    &&& views.to_multiset() == reqs_for(db.requires_v(), recipe_un).to_multiset()
    &&& req_sorted(views)
    &&& forall|j: int|
        0 <= j < comps.len() ==> requirement_matches(
            db,
            &(#[trigger] comps[j]).0,
            comps[j].0.unique_name_v(),
        )
}

/// An item a user tracks: its names and, for every recipe that
/// produces it, the recipe with its resolved requirement list.
#[derive(Debug)]
pub struct TrackedItem {
    common_name: CommonName,
    unique_name: UniqueName,
    recipes: Vec<(Recipe, Vec<(Requirement, Count)>)>,
}

impl TrackedItem {
    /// The display name shown for this item.
    pub closed spec fn common_name_v(&self) -> Seq<char> {
        self.common_name@
    }

    /// The identity key of this item.
    pub closed spec fn unique_name_v(&self) -> Seq<char> {
        self.unique_name@
    }

    /// The resolved recipes with their requirement lists.
    pub closed spec fn recipes_v(&self) -> Seq<(Recipe, Vec<(Requirement, Count)>)> {
        self.recipes@
    }

    /// The display name shown for this item.
    pub fn common_name(&self) -> (r: &str)
        ensures
            r@ == self.common_name_v(),
    {
        self.common_name.as_str()
    }

    /// The identity key of this item.
    pub fn unique_name(&self) -> (r: &str)
        ensures
            r@ == self.unique_name_v(),
    {
        self.unique_name.as_str()
    }

    /// The resolved recipes with their requirement lists.
    pub fn recipes(&self) -> (r: &Vec<(Recipe, Vec<(Requirement, Count)>)>)
        ensures
            r@ == self.recipes_v(),
    {
        &self.recipes
    }

    /// Resolves an item for tracking: looks up its display name, then
    /// every recipe that produces it, and for each recipe its ordered
    /// requirement list, each requirement enriched with its own reward
    /// sources.  Fails exactly when the item is not trackable: no
    /// display name, no recipe, or some recipe or requirement that does
    /// not resolve.
    pub fn new(db: &Data, unique_name: UniqueName) -> (r: Result<Self, ResolveError>)
        ensures
            (r is Ok) == trackable(db, unique_name@),
            match r {
                Ok(t) => {
                    let producers = matches_snd_exact(db.recipes_v(), unique_name@);
                    &&& t.unique_name_v() == unique_name@
                    &&& Option::Some(t.common_name_v()) == lookup_fst_ci(
                        db.resources_v(),
                        unique_name@,
                    )
                    &&& t.recipes_v().len() == producers.len()
                    &&& forall|k: int|
                        0 <= k < producers.len() ==> recipe_matches(
                            db,
                            &(#[trigger] t.recipes_v()[k]).0,
                            producers[k],
                            recipe_display_name(db, producers[k]),
                        )
                    &&& forall|k: int|
                        0 <= k < producers.len() ==> components_match(
                            db,
                            producers[k],
                            (#[trigger] t.recipes_v()[k]).1@,
                        )
                },
                Err(e) => !trackable(db, unique_name@),
            },
    {
        broadcast use vstd::seq_lib::group_to_multiset_ensures;

        let ghost producers = matches_snd_exact(db.recipes_v(), unique_name@);
        let common_name = match db.resource_common_name(unique_name.clone()) {
            Option::Some(cn) => cn,
            Option::None => {
                return Result::Err(
                    ResolveError::CommonNameMissing {
                        unique_name: unique_name.as_str().to_owned(),
                    },
                );
            },
        };
        let recipe_keys = db.recipes(unique_name.clone());
        if recipe_keys.len() == 0 {
            return Result::Err(
                ResolveError::NotCraftable { unique_name: unique_name.as_str().to_owned() },
            );
        }
        let n = recipe_keys.len();
        let mut built: Vec<(Recipe, Vec<(Requirement, Count)>)> = Vec::new();
        let mut k: usize = 0;
        while k < n
            invariant
                n == recipe_keys.len(),
                k <= n,
                producers == matches_snd_exact(db.recipes_v(), unique_name@),
                recipe_keys.deep_view() == producers,
                producers.len() == n,
                forall|j: int| 0 <= j < n ==> producers[j] == (#[trigger] recipe_keys@[j])@,
                built@.len() == k,
                forall|j: int| 0 <= j < k ==> recipe_resolvable(db, #[trigger] producers[j]),
                forall|j: int|
                    0 <= j < k ==> recipe_matches(
                        db,
                        &(#[trigger] built@[j]).0,
                        producers[j],
                        recipe_display_name(db, producers[j]),
                    ),
                forall|j: int|
                    0 <= j < k ==> components_match(db, producers[j], (#[trigger] built@[j]).1@),
                forall|j: int, m: int|
                    0 <= j < k && 0 <= m < reqs_for(db.requires_v(), producers[j]).len()
                        ==> requirement_resolvable(
                        db,
                        (#[trigger] reqs_for(db.requires_v(), producers[j])[m]).0,
                    ),
            decreases n - k,
        {
            let recipe = match Recipe::new(db, recipe_keys[k].clone()) {
                Ok(rec) => rec,
                Err(e) => {
                    proof {
                        assert(!recipe_resolvable(db, producers[k as int]));
                    }
                    return Result::Err(e);
                },
            };
            let reqs = db.requirements(recipe_keys[k].clone());
            let ghost reqsv = reqs@.map_values(|p: (UniqueName, Count)| req_pair_view(p));
            let ghost rows = reqs_for(db.requires_v(), producers[k as int]);
            let m_count = reqs.len();
            let mut comps: Vec<(Requirement, Count)> = Vec::new();
            let mut j: usize = 0;
            proof {
                assert(comps@.map_values(
                    |p: (Requirement, Count)| (p.0.unique_name_v(), p.1.0),
                ) =~= reqsv.take(0));
            }
            while j < m_count
                invariant
                    m_count == reqs.len(),
                    j <= m_count,
                    producers == matches_snd_exact(db.recipes_v(), unique_name@),
                    k < producers.len(),
                    reqsv == reqs@.map_values(|p: (UniqueName, Count)| req_pair_view(p)),
                    reqsv.len() == m_count,
                    rows == reqs_for(db.requires_v(), producers[k as int]),
                    reqsv.to_multiset() == rows.to_multiset(),
                    comps@.len() == j,
                    comps@.map_values(|p: (Requirement, Count)| (p.0.unique_name_v(), p.1.0))
                        == reqsv.take(j as int),
                    forall|m: int|
                        0 <= m < j ==> requirement_matches(
                            db,
                            &(#[trigger] comps@[m]).0,
                            comps@[m].0.unique_name_v(),
                        ),
                    forall|m: int|
                        0 <= m < j ==> requirement_resolvable(db, (#[trigger] reqsv[m]).0),
                decreases m_count - j,
            {
                proof {
                    assert(reqsv[j as int] == req_pair_view(reqs@[j as int]));
                }
                let requirement = match Requirement::new(reqs[j].0.clone(), db) {
                    Ok(req) => req,
                    Err(e) => {
                        proof {
                            reqsv.to_multiset_ensures();
                            rows.to_multiset_ensures();
                            assert(!requirement_resolvable(db, reqsv[j as int].0));
                            assert(reqsv.contains(reqsv[j as int]));
                            assert(reqsv.to_multiset().count(reqsv[j as int]) > 0);
                            assert(rows.to_multiset().count(reqsv[j as int]) > 0);
                            assert(rows.contains(reqsv[j as int]));
                            let w = choose|w: int|
                                0 <= w < rows.len() && rows[w] == reqsv[j as int];
                            assert(!trackable(db, unique_name@));
                        }
                        return Result::Err(e);
                    },
                };
                let count = reqs[j].1;
                let ghost pre = comps@.map_values(
                    |p: (Requirement, Count)| (p.0.unique_name_v(), p.1.0),
                );
                comps.push((requirement, count));
                proof {
                    assert(comps@.map_values(
                        |p: (Requirement, Count)| (p.0.unique_name_v(), p.1.0),
                    ) =~= pre.push(reqsv[j as int]));
                    assert(reqsv.take(j + 1) =~= reqsv.take(j as int).push(reqsv[j as int]));
                }
                j = j + 1;
            }
            proof {
                assert(reqsv.take(m_count as int) =~= reqsv);
                assert(components_match(db, producers[k as int], comps@)) by {
                    assert(comps@.map_values(
                        |p: (Requirement, Count)| (p.0.unique_name_v(), p.1.0),
                    ) == reqsv);
                }
                assert forall|m: int| 0 <= m < rows.len() implies requirement_resolvable(
                    db,
                    (#[trigger] rows[m]).0,
                ) by {
                    reqsv.to_multiset_ensures();
                    rows.to_multiset_ensures();
                    assert(rows.contains(rows[m]));
                    assert(rows.to_multiset().count(rows[m]) > 0);
                    assert(reqsv.to_multiset().count(rows[m]) > 0);
                    assert(reqsv.contains(rows[m]));
                    let w = choose|w: int| 0 <= w < reqsv.len() && reqsv[w] == rows[m];
                    assert(requirement_resolvable(db, reqsv[w].0));
                }
            }
            built.push((recipe, comps));
            k = k + 1;
        }
        proof {
            assert(trackable(db, unique_name@));
        }
        Result::Ok(TrackedItem { common_name, unique_name, recipes: built })
    }
}

} // verus!
