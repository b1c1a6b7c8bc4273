//! The in-memory relational store: the row indices, the membership sets,
//! and the `Data` façade that queries run against.
use vstd::prelude::*;

pub mod active_relics;
pub mod invasions;
pub mod items;
pub mod recipes;
pub mod relic_rewards;
pub mod relics;
pub mod requires_index;
pub mod resources;
pub mod resurgence_relics;
pub mod types;

pub use types::CommonName;
pub use types::Count;
pub use types::UniqueName;

verus! {

use crate::relic::Rarity;
use crate::relic::Relic;
use crate::structures::active_relics::ActiveRelics;
use crate::structures::invasions::Invasions;
use crate::structures::recipes::Recipes;
use crate::structures::relic_rewards::RelicRewards;
use crate::structures::relic_rewards::rewards_for;
use crate::structures::relics::Relics;
use crate::structures::requires_index::Requires;
use crate::structures::resources::Resources;
use crate::structures::resurgence_relics::ResurgenceRelics;
use crate::text::fold_case;

/// The second component of the first pair whose first component matches
/// the key case-insensitively.
pub open spec fn lookup_fst_ci(rows: Seq<(Seq<char>, Seq<char>)>, key: Seq<char>) -> Option<
    Seq<char>,
>
    decreases rows.len(),
{
    if rows.len() == 0 {
        Option::None
    } else if fold_case(rows[0].0) == fold_case(key) {
        Option::Some(rows[0].1)
    } else {
        lookup_fst_ci(rows.drop_first(), key)
    }
}

/// The first component of the first pair whose second component matches
/// the key case-insensitively.
pub open spec fn lookup_snd_ci(rows: Seq<(Seq<char>, Seq<char>)>, key: Seq<char>) -> Option<
    Seq<char>,
>
    decreases rows.len(),
{
    if rows.len() == 0 {
        Option::None
    } else if fold_case(rows[0].1) == fold_case(key) {
        Option::Some(rows[0].0)
    } else {
        lookup_snd_ci(rows.drop_first(), key)
    }
}

/// The first components of every pair whose second component equals the
/// key exactly, in row order.
pub open spec fn matches_snd_exact(rows: Seq<(Seq<char>, Seq<char>)>, key: Seq<char>) -> Seq<
    Seq<char>,
>
    decreases rows.len(),
{
    if rows.len() == 0 {
        Seq::empty()
    } else if rows[0].1 == key {
        seq![rows[0].0] + matches_snd_exact(rows.drop_first(), key)
    } else {
        matches_snd_exact(rows.drop_first(), key)
    }
}

/// Inserting an element anywhere in a sequence adds exactly that
/// element to its multiset of contents.
pub proof fn lemma_insert_to_multiset<T>(s: Seq<T>, x: T, i: int)
    requires
        0 <= i <= s.len(),
    ensures
        s.insert(i, x).to_multiset() == s.to_multiset().insert(x),
{
    broadcast use vstd::seq_lib::group_to_multiset_ensures;

    let left = s.take(i);
    let right = s.skip(i);
    assert(s.insert(i, x) =~= left.push(x) + right);
    assert(s =~= left + right);
    vstd::seq_lib::lemma_multiset_commutative(left.push(x), right);
    vstd::seq_lib::lemma_multiset_commutative(left, right);
    assert(left.push(x).to_multiset() == left.to_multiset().insert(x));
    assert(s.insert(i, x).to_multiset() =~= s.to_multiset().insert(x));
}

/// Membership of one element after extending a sequence by another.
pub proof fn lemma_push_contains<T>(s: Seq<T>, x: T, y: T)
    ensures
        s.push(x).contains(y) <==> s.contains(y) || y == x,
{
    assert(s.push(x)[s.len() as int] == x);
    if s.contains(y) {
        let i = choose|i: int| 0 <= i < s.len() && s[i] == y;
        assert(s.push(x)[i] == y);
    }
    if s.push(x).contains(y) && y != x {
        let i = choose|i: int| 0 <= i < s.push(x).len() && s.push(x)[i] == y;
        assert(i < s.len());
        assert(s[i] == y);
    }
}

/// A reward source visible through the active rotation: some reward row
/// for the component resolves to this display name and rarity, and a
/// relic of that display name is farmable this rotation.
pub open spec fn active_source(
    rewards: Seq<(Seq<char>, Rarity)>,
    relics: Seq<(Seq<char>, Seq<char>)>,
    active: Seq<Seq<char>>,
    x: (Seq<char>, Rarity),
) -> bool {
    exists|k: int|
        0 <= k < rewards.len() && lookup_fst_ci(relics, (#[trigger] rewards[k]).0)
            == Option::Some(x.0) && rewards[k].1 == x.1 && active.contains(x.0)
}

/// A reward source visible through the vendor rotation: some reward row
/// for the component resolves to this display name and rarity, and that
/// row's relic identity key is in the vendor rotation.
pub open spec fn resurgence_source(
    rewards: Seq<(Seq<char>, Rarity)>,
    relics: Seq<(Seq<char>, Seq<char>)>,
    resurgence: Seq<Seq<char>>,
    x: (Seq<char>, Rarity),
) -> bool {
    exists|k: int|
        0 <= k < rewards.len() && lookup_fst_ci(relics, (#[trigger] rewards[k]).0)
            == Option::Some(x.0) && rewards[k].1 == x.1 && resurgence.contains(rewards[k].0)
}

/// Every reward row in a list names a relic the Relics index knows.
pub open spec fn all_resolvable(
    rewards: Seq<(Seq<char>, Rarity)>,
    relics: Seq<(Seq<char>, Seq<char>)>,
) -> bool {
    forall|k: int|
        0 <= k < rewards.len() ==> lookup_fst_ci(relics, (#[trigger] rewards[k]).0) is Some
}

/// The in-memory relational store, built once from a consistent snapshot
/// of the manifests and auxiliary feeds, then queried read-only.
#[derive(Debug)]
pub struct Data {
    active_relics: ActiveRelics,
    invasions: Invasions,
    recipes: Recipes,
    relics: Relics,
    relic_rewards: RelicRewards,
    requires: Requires,
    resources: Resources,
    resurgence_relics: ResurgenceRelics,
}

impl Data {
    /// The rows of the Resources index.
    pub closed spec fn resources_v(&self) -> Seq<(Seq<char>, Seq<char>)> {
        self.resources@
    }

    /// The rows of the Recipes index.
    pub closed spec fn recipes_v(&self) -> Seq<(Seq<char>, Seq<char>)> {
        self.recipes@
    }

    /// The rows of the Requires index.
    pub closed spec fn requires_v(&self) -> Seq<(Seq<char>, Seq<char>, u32)> {
        self.requires@
    }

    /// The rows of the Relics index.
    pub closed spec fn relics_v(&self) -> Seq<(Seq<char>, Seq<char>)> {
        self.relics@
    }

    /// The rows of the RelicRewards index.
    pub closed spec fn relic_rewards_v(&self) -> Seq<(Seq<char>, Seq<char>, Rarity)> {
        self.relic_rewards@
    }

    /// The display names in the active-relic set.
    pub closed spec fn active_relics_v(&self) -> Seq<Seq<char>> {
        self.active_relics@
    }

    /// The identity keys in the resurgence-relic set.
    pub closed spec fn resurgence_relics_v(&self) -> Seq<Seq<char>> {
        self.resurgence_relics@
    }

    /// The item identity keys in the invasion reward set.
    pub closed spec fn invasions_v(&self) -> Seq<Seq<char>> {
        self.invasions@
    }

    /// A recipe's ingredient list, ordered ascending by count, then by
    /// ingredient identity key.
    pub fn requirements(&self, recipe_unique_name: UniqueName) -> (r: Vec<(UniqueName, Count)>)
        ensures
            r@.map_values(
                |p: (UniqueName, Count)| crate::structures::requires_index::req_pair_view(p),
            ).to_multiset() == crate::structures::requires_index::reqs_for(
                self.requires_v(),
                recipe_unique_name@,
            ).to_multiset(),
            crate::structures::requires_index::req_sorted(
                r@.map_values(
                    |p: (UniqueName, Count)| crate::structures::requires_index::req_pair_view(p),
                ),
            ),
    {
        self.requires.fetch_by_recipe_unique_name(recipe_unique_name)
    }

    /// The display name of an item, by its identity key.
    pub fn resource_common_name(&self, unique_name: UniqueName) -> (r: Option<CommonName>)
        ensures
            match r {
                Option::Some(cn) => lookup_fst_ci(self.resources_v(), unique_name@)
                    == Option::Some(cn@),
                Option::None => lookup_fst_ci(self.resources_v(), unique_name@) == Option::<
                    Seq<char>,
                >::None,
            },
    {
        self.resources.fetch_by_unique_name(unique_name)
    }

    /// The identity key of an item, by its display name; the first
    /// indexed match wins when display names collide.
    pub fn resource_unique_name(&self, common_name: CommonName) -> (r: Option<UniqueName>)
        ensures
            match r {
                Option::Some(un) => lookup_snd_ci(self.resources_v(), common_name@)
                    == Option::Some(un@),
                Option::None => lookup_snd_ci(self.resources_v(), common_name@) == Option::<
                    Seq<char>,
                >::None,
            },
    {
        self.resources.fetch_by_common_name(common_name)
    }

    /// How many units of one resource a recipe requires: the count of
    /// the first requirement row for the pair, in row order, when there
    /// is one.
    pub fn _how_many_needed(&self, recipe_unique_name: UniqueName, resource_unique_name: UniqueName)
        -> (r: Option<Count>)
        ensures
            match r {
                Option::Some(c) => crate::structures::requires_index::first_count_for(
                    self.requires_v(),
                    recipe_unique_name@,
                    resource_unique_name@,
                ) == Option::Some(c.0),
                Option::None => crate::structures::requires_index::first_count_for(
                    self.requires_v(),
                    recipe_unique_name@,
                    resource_unique_name@,
                ) == Option::<u32>::None,
            },
    {
        self.requires.how_many_needed(recipe_unique_name, resource_unique_name)
    }

    /// Every recipe that produces a result item, in row order.
    pub fn recipes(&self, result_type: UniqueName) -> (r: Vec<UniqueName>)
        ensures
            r.deep_view() == matches_snd_exact(self.recipes_v(), result_type@),
    {
        self.recipes.fetch_by_result_type(result_type)
    }

    /// The first recipe that produces a result item, when any does.
    pub fn recipe(&self, result_type: UniqueName) -> (r: Option<UniqueName>)
        ensures
            match r {
                Option::Some(un) => matches_snd_exact(self.recipes_v(), result_type@).len() > 0
                    && matches_snd_exact(self.recipes_v(), result_type@)[0] == un@,
                Option::None => matches_snd_exact(self.recipes_v(), result_type@).len() == 0,
            },
    {
        let mut all = self.recipes.fetch_by_result_type(result_type);
        if all.len() == 0 {
            Option::None
        } else {
            let first = all.remove(0);
            Option::Some(first)
        }
    }

    /// What a recipe makes, by the recipe's identity key.
    pub fn recipe_result(&self, recipe_unique_name: UniqueName) -> (r: Option<UniqueName>)
        ensures
            match r {
                Option::Some(un) => lookup_fst_ci(self.recipes_v(), recipe_unique_name@)
                    == Option::Some(un@),
                Option::None => lookup_fst_ci(self.recipes_v(), recipe_unique_name@) == Option::<
                    Seq<char>,
                >::None,
            },
    {
        self.recipes.fetch_by_unique_name(recipe_unique_name)
    }

    /// Whether an item is currently an invasion reward.
    pub fn available_from_invasion(&self, unique_name: UniqueName) -> (r: bool)
        ensures
            r == self.invasions_v().contains(unique_name@),
    {
        self.invasions.drops_from_invasion(unique_name)
    }

    /// Every relic farmable this rotation that can drop a component,
    /// deduplicated and ordered by display name then rarity; nothing
    /// when some reward row names a relic the Relics index does not
    /// know.
    pub fn active_relics(&self, component_unique_name: UniqueName) -> (r: Option<Vec<Relic>>)
        ensures
            (r is Some) == all_resolvable(
                rewards_for(self.relic_rewards_v(), component_unique_name@),
                self.relics_v(),
            ),
            match r {
                Option::Some(v) => crate::relic::relic_sorted_dedup(v.deep_view()) && forall|
                    x: (Seq<char>, Rarity),
                |
                    #[trigger] v.deep_view().contains(x) <==> active_source(
                        rewards_for(self.relic_rewards_v(), component_unique_name@),
                        self.relics_v(),
                        self.active_relics_v(),
                        x,
                    ),
                Option::None => true,
            },
    {
        let rws = self.relic_rewards.fetch_by_reward_unique_name(component_unique_name);
        let ghost rwsv = rewards_for(self.relic_rewards_v(), component_unique_name@);
        let n = rws.len();
        let mut picked: Vec<Relic> = Vec::new();
        let mut i: usize = 0;
        proof {
            assert(rws@.map_values(|p: (UniqueName, Rarity)| (p.0@, p.1)) == rwsv);
            assert(picked.deep_view() =~= Seq::<(Seq<char>, Rarity)>::empty());
        }
        while i < n
            invariant
                n == rws.len(),
                i <= n,
                rwsv == rewards_for(self.relic_rewards_v(), component_unique_name@),
                rws@.map_values(|p: (UniqueName, Rarity)| (p.0@, p.1)) == rwsv,
                rwsv.len() == n,
                forall|j: int|
                    0 <= j < picked.deep_view().len() ==> picked.deep_view()[j] == (
                    #[trigger] picked@[j])@,
                forall|k: int|
                    0 <= k < i ==> lookup_fst_ci(self.relics_v(), (#[trigger] rwsv[k]).0) is Some,
                forall|x: (Seq<char>, Rarity)|
                    #[trigger] picked.deep_view().contains(x) <==> exists|k: int|
                        0 <= k < i && lookup_fst_ci(self.relics_v(), (#[trigger] rwsv[k]).0)
                            == Option::Some(x.0) && rwsv[k].1 == x.1
                            && self.active_relics_v().contains(x.0),
            decreases n - i,
        {
            proof {
                assert(rwsv[i as int] == (rws@[i as int].0@, rws@[i as int].1));
            }
            let relic_un = rws[i].0.clone();
            let rar = rws[i].1;
            match self.relics.fetch_by_unique_name(relic_un) {
                Option::None => {
                    proof {
                        assert(lookup_fst_ci(self.relics_v(), rwsv[i as int].0) is None);
                    }
                    return Option::None;
                },
                Option::Some(cn) => {
                    let ghost cnv = cn@;
                    let is_act = self.active_relics.is_active(cn.clone());
                    let ghost pre = picked.deep_view();
                    if is_act {
                        picked.push(Relic::new(cn, rar));
                        proof {
                            assert(picked.deep_view() =~= pre.push((cnv, rar)));
                        }
                    }
                    proof {
                        let cur = picked.deep_view();
                        assert forall|x: (Seq<char>, Rarity)|
                            #[trigger] cur.contains(x) <==> exists|k: int|
                                0 <= k < i + 1 && lookup_fst_ci(
                                    self.relics_v(),
                                    (#[trigger] rwsv[k]).0,
                                ) == Option::Some(x.0) && rwsv[k].1 == x.1
                                && self.active_relics_v().contains(x.0) by {
                            if is_act {
                                lemma_push_contains(pre, (cnv, rar), x);
                            }
                            if cur.contains(x) {
                                if pre.contains(x) {
                                    let k = choose|k: int|
                                        0 <= k < i && lookup_fst_ci(
                                            self.relics_v(),
                                            (#[trigger] rwsv[k]).0,
                                        ) == Option::Some(x.0) && rwsv[k].1 == x.1
                                            && self.active_relics_v().contains(x.0);
                                    assert(0 <= k < i + 1 && lookup_fst_ci(
                                        self.relics_v(),
                                        rwsv[k].0,
                                    ) == Option::Some(x.0) && rwsv[k].1 == x.1
                                        && self.active_relics_v().contains(x.0));
                                } else {
                                    assert(is_act && x == (cnv, rar));
                                    assert(lookup_fst_ci(self.relics_v(), rwsv[i as int].0)
                                        == Option::Some(x.0) && rwsv[i as int].1 == x.1
                                        && self.active_relics_v().contains(x.0));
                                }
                            }
                            if exists|k: int|
                                0 <= k < i + 1 && lookup_fst_ci(
                                    self.relics_v(),
                                    (#[trigger] rwsv[k]).0,
                                ) == Option::Some(x.0) && rwsv[k].1 == x.1
                                && self.active_relics_v().contains(x.0) {
                                let k = choose|k: int|
                                    0 <= k < i + 1 && lookup_fst_ci(
                                        self.relics_v(),
                                        (#[trigger] rwsv[k]).0,
                                    ) == Option::Some(x.0) && rwsv[k].1 == x.1
                                        && self.active_relics_v().contains(x.0);
                                if k < i {
                                    assert(pre.contains(x));
                                    if is_act {
                                        lemma_push_contains(pre, (cnv, rar), x);
                                    }
                                } else {
                                    assert(x.0 == cnv && x.1 == rar);
                                    assert(is_act);
                                    assert(cur.contains(x));
                                }
                            }
                        }
                    }
                },
            }
            i = i + 1;
        }
        let out = crate::relic::sort_dedup_relics(picked);
        Option::Some(out)
    }

    /// Every relic in the vendor rotation that can drop a component,
    /// deduplicated and ordered by display name then rarity; nothing
    /// when some reward row names a relic the Relics index does not
    /// know.
    pub fn resurgence_relics(&self, component_unique_name: UniqueName) -> (r: Option<Vec<Relic>>)
        ensures
            (r is Some) == all_resolvable(
                rewards_for(self.relic_rewards_v(), component_unique_name@),
                self.relics_v(),
            ),
            match r {
                Option::Some(v) => crate::relic::relic_sorted_dedup(v.deep_view()) && forall|
                    x: (Seq<char>, Rarity),
                |
                    #[trigger] v.deep_view().contains(x) <==> resurgence_source(
                        rewards_for(self.relic_rewards_v(), component_unique_name@),
                        self.relics_v(),
                        self.resurgence_relics_v(),
                        x,
                    ),
                Option::None => true,
            },
    {
        let rws = self.relic_rewards.fetch_by_reward_unique_name(component_unique_name);
        let ghost rwsv = rewards_for(self.relic_rewards_v(), component_unique_name@);
        let n = rws.len();
        let mut picked: Vec<Relic> = Vec::new();
        let mut i: usize = 0;
        proof {
            assert(rws@.map_values(|p: (UniqueName, Rarity)| (p.0@, p.1)) == rwsv);
            assert(picked.deep_view() =~= Seq::<(Seq<char>, Rarity)>::empty());
        }
        while i < n
            invariant
                n == rws.len(),
                i <= n,
                rwsv == rewards_for(self.relic_rewards_v(), component_unique_name@),
                rws@.map_values(|p: (UniqueName, Rarity)| (p.0@, p.1)) == rwsv,
                rwsv.len() == n,
                forall|j: int|
                    0 <= j < picked.deep_view().len() ==> picked.deep_view()[j] == (
                    #[trigger] picked@[j])@,
                forall|k: int|
                    0 <= k < i ==> lookup_fst_ci(self.relics_v(), (#[trigger] rwsv[k]).0) is Some,
                forall|x: (Seq<char>, Rarity)|
                    #[trigger] picked.deep_view().contains(x) <==> exists|k: int|
                        0 <= k < i && lookup_fst_ci(self.relics_v(), (#[trigger] rwsv[k]).0)
                            == Option::Some(x.0) && rwsv[k].1 == x.1
                            && self.resurgence_relics_v().contains(rwsv[k].0),
            decreases n - i,
        {
            proof {
                assert(rwsv[i as int] == (rws@[i as int].0@, rws@[i as int].1));
            }
            let relic_un = rws[i].0.clone();
            let rar = rws[i].1;
            match self.relics.fetch_by_unique_name(relic_un) {
                Option::None => {
                    proof {
                        assert(lookup_fst_ci(self.relics_v(), rwsv[i as int].0) is None);
                    }
                    return Option::None;
                },
                Option::Some(cn) => {
                    let ghost cnv = cn@;
                    let relic_un_again = rws[i].0.clone();
                    let in_rotation = self.resurgence_relics.is_active(relic_un_again);
                    let ghost pre = picked.deep_view();
                    if in_rotation {
                        picked.push(Relic::new(cn, rar));
                        proof {
                            assert(picked.deep_view() =~= pre.push((cnv, rar)));
                        }
                    }
                    proof {
                        let cur = picked.deep_view();
                        assert forall|x: (Seq<char>, Rarity)|
                            #[trigger] cur.contains(x) <==> exists|k: int|
                                0 <= k < i + 1 && lookup_fst_ci(
                                    self.relics_v(),
                                    (#[trigger] rwsv[k]).0,
                                ) == Option::Some(x.0) && rwsv[k].1 == x.1
                                && self.resurgence_relics_v().contains(rwsv[k].0) by {
                            if in_rotation {
                                lemma_push_contains(pre, (cnv, rar), x);
                            }
                            if cur.contains(x) {
                                if pre.contains(x) {
                                    let k = choose|k: int|
                                        0 <= k < i && lookup_fst_ci(
                                            self.relics_v(),
                                            (#[trigger] rwsv[k]).0,
                                        ) == Option::Some(x.0) && rwsv[k].1 == x.1
                                            && self.resurgence_relics_v().contains(rwsv[k].0);
                                    assert(0 <= k < i + 1 && lookup_fst_ci(
                                        self.relics_v(),
                                        rwsv[k].0,
                                    ) == Option::Some(x.0) && rwsv[k].1 == x.1
                                        && self.resurgence_relics_v().contains(rwsv[k].0));
                                } else {
                                    assert(in_rotation && x == (cnv, rar));
                                    assert(lookup_fst_ci(self.relics_v(), rwsv[i as int].0)
                                        == Option::Some(x.0) && rwsv[i as int].1 == x.1
                                        && self.resurgence_relics_v().contains(rwsv[i as int].0));
                                }
                            }
                            if exists|k: int|
                                0 <= k < i + 1 && lookup_fst_ci(
                                    self.relics_v(),
                                    (#[trigger] rwsv[k]).0,
                                ) == Option::Some(x.0) && rwsv[k].1 == x.1
                                && self.resurgence_relics_v().contains(rwsv[k].0) {
                                let k = choose|k: int|
                                    0 <= k < i + 1 && lookup_fst_ci(
                                        self.relics_v(),
                                        (#[trigger] rwsv[k]).0,
                                    ) == Option::Some(x.0) && rwsv[k].1 == x.1
                                        && self.resurgence_relics_v().contains(rwsv[k].0);
                                if k < i {
                                    assert(pre.contains(x));
                                    if in_rotation {
                                        lemma_push_contains(pre, (cnv, rar), x);
                                    }
                                } else {
                                    assert(x.0 == cnv && x.1 == rar);
                                    assert(in_rotation);
                                    assert(cur.contains(x));
                                }
                            }
                        }
                    }
                },
            }
            i = i + 1;
        }
        let out = crate::relic::sort_dedup_relics(picked);
        Option::Some(out)
    }
}

/// Follows the active/resurgence partition, one direction: a relic whose
/// display name is in the active set, while every reward row that
/// resolves to that display name names a relic outside the vendor
/// rotation, appears in the active-source list for any item it rewards
/// and never in the resurgence-source list.  Membership in the two
/// result lists equals `active_source` and `resurgence_source` by the
/// contracts of `Data::active_relics` and `Data::resurgence_relics`.
pub proof fn lemma_source_partition_active(
    rewards: Seq<(Seq<char>, Rarity)>,
    relics: Seq<(Seq<char>, Seq<char>)>,
    active: Seq<Seq<char>>,
    resurgence: Seq<Seq<char>>,
    c: Seq<char>,
    rar: Rarity,
)
    requires
        exists|k: int|
            0 <= k < rewards.len() && lookup_fst_ci(relics, (#[trigger] rewards[k]).0)
                == Option::Some(c) && rewards[k].1 == rar,
        forall|k: int|
            0 <= k < rewards.len() && lookup_fst_ci(relics, (#[trigger] rewards[k]).0)
                == Option::Some(c) ==> !resurgence.contains(rewards[k].0),
        active.contains(c),
    ensures
        active_source(rewards, relics, active, (c, rar)),
        !resurgence_source(rewards, relics, resurgence, (c, rar)),
{
    let k = choose|k: int|
        0 <= k < rewards.len() && lookup_fst_ci(relics, (#[trigger] rewards[k]).0)
            == Option::Some(c) && rewards[k].1 == rar;
    assert(lookup_fst_ci(relics, rewards[k].0) == Option::Some(c) && rewards[k].1 == rar
        && active.contains(c));
}

/// Follows the active/resurgence partition, the other direction: a relic
/// in the vendor rotation whose display name is not in the active set
/// appears in the resurgence-source list for any item it rewards and
/// never in the active-source list.
pub proof fn lemma_source_partition_resurgence(
    rewards: Seq<(Seq<char>, Rarity)>,
    relics: Seq<(Seq<char>, Seq<char>)>,
    active: Seq<Seq<char>>,
    resurgence: Seq<Seq<char>>,
    c: Seq<char>,
    rar: Rarity,
)
    requires
        exists|k: int|
            0 <= k < rewards.len() && lookup_fst_ci(relics, (#[trigger] rewards[k]).0)
                == Option::Some(c) && rewards[k].1 == rar && resurgence.contains(rewards[k].0),
        !active.contains(c),
    ensures
        resurgence_source(rewards, relics, resurgence, (c, rar)),
        !active_source(rewards, relics, active, (c, rar)),
{
    let k = choose|k: int|
        0 <= k < rewards.len() && lookup_fst_ci(relics, (#[trigger] rewards[k]).0)
            == Option::Some(c) && rewards[k].1 == rar && resurgence.contains(rewards[k].0);
    assert(lookup_fst_ci(relics, rewards[k].0) == Option::Some(c) && rewards[k].1 == rar
        && resurgence.contains(rewards[k].0));
}

/// The archwing marker stripped from a warframe display name when
/// present.
pub open spec fn archwing_strip(s: Seq<char>) -> Seq<char> {
    if crate::text::has_prefix(s, "<ARCHWING> "@) {
        s.skip("<ARCHWING> "@.len() as int)
    } else {
        s
    }
}

/// The Resources rows contributed by the resources manifest.
pub open spec fn resource_rows(rs: Seq<crate::cache::resources::Resource>) -> Seq<
    (Seq<char>, Seq<char>),
> {
    rs.map_values(|r: crate::cache::resources::Resource| (r.unique_name@, r.name@))
}

/// The Resources rows contributed by the warframes manifest, each
/// display name normalized by stripping the archwing marker.
pub open spec fn warframe_rows(ws: Seq<crate::cache::warframes::Warframe>) -> Seq<
    (Seq<char>, Seq<char>),
> {
    ws.map_values(
        |w: crate::cache::warframes::Warframe| (w.unique_name@, archwing_strip(w.name@)),
    )
}

/// The Resources rows contributed by the weapons manifest.
pub open spec fn weapon_rows(ws: Seq<crate::cache::weapons::Weapon>) -> Seq<
    (Seq<char>, Seq<char>),
> {
    ws.map_values(|w: crate::cache::weapons::Weapon| (w.unique_name@, w.name@))
}

/// The Recipes rows of the recipes manifest.
pub open spec fn recipe_rows(rs: Seq<crate::cache::recipes::Recipe>) -> Seq<
    (Seq<char>, Seq<char>),
> {
    rs.map_values(|r: crate::cache::recipes::Recipe| (r.unique_name@, r.result_type@))
}

/// The Requires rows of one recipe: one row per ingredient, in
/// manifest order.
pub open spec fn ingredient_rows(r: crate::cache::recipes::Recipe) -> Seq<
    (Seq<char>, Seq<char>, u32),
> {
    r.ingredients@.map_values(
        |ing: crate::cache::recipes::Ingredient| (r.unique_name@, ing.item_type@, ing.item_count),
    )
}

/// The Requires rows of the recipes manifest, in manifest order.
pub open spec fn require_rows(rs: Seq<crate::cache::recipes::Recipe>) -> Seq<
    (Seq<char>, Seq<char>, u32),
>
    decreases rs.len(),
{
    if rs.len() == 0 {
        Seq::empty()
    } else {
        ingredient_rows(rs[0]) + require_rows(rs.drop_first())
    }
}

/// Every ingredient count in the recipes manifest is positive.
pub open spec fn counts_positive(rs: Seq<crate::cache::recipes::Recipe>) -> bool {
    forall|j: int, k: int|
        0 <= j < rs.len() && 0 <= k < (#[trigger] rs[j]).ingredients@.len() ==> (
        #[trigger] rs[j].ingredients@[k]).item_count > 0
}

/// The Relics rows of the relic manifest.
pub open spec fn relic_rows(rs: Seq<crate::cache::relics::Relic>) -> Seq<(Seq<char>, Seq<char>)> {
    rs.map_values(|r: crate::cache::relics::Relic| (r.unique_name@, r.name@))
}

/// The RelicRewards rows of one relic: one row per reward, the reward's
/// identity key in its normal form, in manifest order.
pub open spec fn reward_rows_of(r: crate::cache::relics::Relic) -> Seq<
    (Seq<char>, Seq<char>, Rarity),
> {
    r.relic_rewards@.map_values(
        |rw: crate::cache::relics::Reward| (
            r.unique_name@,
            crate::text::normalized_path(rw.reward_name@),
            rw.rarity,
        ),
    )
}

/// The RelicRewards rows of the relic manifest, in manifest order.
pub open spec fn reward_rows(rs: Seq<crate::cache::relics::Relic>) -> Seq<
    (Seq<char>, Seq<char>, Rarity),
>
    decreases rs.len(),
{
    if rs.len() == 0 {
        Seq::empty()
    } else {
        reward_rows_of(rs[0]) + reward_rows(rs.drop_first())
    }
}

/// Why a store could not be built.
#[derive(Debug)]
pub enum BuildError {
    /// A recipe requires zero units of an ingredient; both identity
    /// keys are carried for reporting.
    ZeroCount { recipe: String, item: String },
}

impl Data {
    /// Builds the store in one ingestion pass over a consistent snapshot
    /// of the five manifests and the three auxiliary feeds: items first
    /// (resources, then warframes with the archwing marker stripped,
    /// then weapons), then recipes with their requirement rows, relics
    /// with their reward rows (reward identity keys in normal form), and
    /// the three membership sets.  All text is interned during the pass.
    /// Construction fails, and no store is exposed, exactly when some
    /// ingredient count is zero.
    pub fn from_cache(
        resources: Vec<crate::cache::resources::Resource>,
        warframes: Vec<crate::cache::warframes::Warframe>,
        weapons: Vec<crate::cache::weapons::Weapon>,
        recipes: Vec<crate::cache::recipes::Recipe>,
        relics: Vec<crate::cache::relics::Relic>,
        droptable_cells: Vec<String>,
        vendor_item_paths: Vec<String>,
        invasion_feed: Vec<crate::cache::worldstate::Invasion>,
    ) -> (r: Result<Data, BuildError>)
        ensures
            (r is Ok) == counts_positive(recipes@),
            match r {
                Ok(data) => {
                    &&& data.resources_v() == resource_rows(resources@) + warframe_rows(
                        warframes@,
                    ) + weapon_rows(weapons@)
                    &&& data.recipes_v() == recipe_rows(recipes@)
                    &&& data.requires_v() == require_rows(recipes@)
                    &&& data.relics_v() == relic_rows(relics@)
                    &&& data.relic_rewards_v() == reward_rows(relics@)
                    &&& data.active_relics_v() == crate::cache::droptable::active_relics_of(
                        droptable_cells.deep_view(),
                    )
                    &&& data.resurgence_relics_v() == crate::cache::worldstate::resurgence_relics_of(
                        vendor_item_paths.deep_view(),
                    )
                    &&& data.invasions_v() == crate::cache::worldstate::invasions_of(
                        invasion_feed@,
                    )
                },
                Err(e) => !counts_positive(recipes@),
            },
    {
        let mut common_names = crate::interner::Interner::new();
        let mut unique_names = crate::interner::Interner::new();

        let mut resources_idx = Resources::new();
        let n_res = resources.len();
        let mut i: usize = 0;
        while i < n_res
            invariant
                n_res == resources.len(),
                i <= n_res,
                resources_idx@ == resource_rows(resources@.take(i as int)),
            decreases n_res - i,
        {
            let un = unique_names.intern(resources[i].unique_name.clone());
            let cn = common_names.intern(resources[i].name.clone());
            resources_idx.add(UniqueName::from_handle(un), CommonName::from_handle(cn));
            proof {
                assert(resources@.take(i + 1) =~= resources@.take(i as int).push(
                    resources@[i as int],
                ));
                assert(resource_rows(resources@.take(i + 1)) =~= resource_rows(
                    resources@.take(i as int),
                ).push((resources@[i as int].unique_name@, resources@[i as int].name@)));
            }
            i = i + 1;
        }
        proof {
            assert(resources@.take(n_res as int) =~= resources@);
        }

        let n_wf = warframes.len();
        let mut i: usize = 0;
        while i < n_wf
            invariant
                n_wf == warframes.len(),
                i <= n_wf,
                resources_idx@ == resource_rows(resources@) + warframe_rows(
                    warframes@.take(i as int),
                ),
            decreases n_wf - i,
        {
            let un = unique_names.intern(warframes[i].unique_name.clone());
            let stripped = crate::text::strip_prefix_str(warframes[i].name.as_str(), "<ARCHWING> ");
            let cn = common_names.intern(stripped);
            resources_idx.add(UniqueName::from_handle(un), CommonName::from_handle(cn));
            proof {
                assert(warframes@.take(i + 1) =~= warframes@.take(i as int).push(
                    warframes@[i as int],
                ));
                assert(warframe_rows(warframes@.take(i + 1)) =~= warframe_rows(
                    warframes@.take(i as int),
                ).push((warframes@[i as int].unique_name@, archwing_strip(
                    warframes@[i as int].name@,
                ))));
                assert(resources_idx@ =~= resource_rows(resources@) + warframe_rows(
                    warframes@.take(i + 1),
                ));
            }
            i = i + 1;
        }
        proof {
            assert(warframes@.take(n_wf as int) =~= warframes@);
        }

        let n_wp = weapons.len();
        let mut i: usize = 0;
        while i < n_wp
            invariant
                n_wp == weapons.len(),
                i <= n_wp,
                resources_idx@ == resource_rows(resources@) + warframe_rows(warframes@)
                    + weapon_rows(weapons@.take(i as int)),
            decreases n_wp - i,
        {
            let un = unique_names.intern(weapons[i].unique_name.clone());
            let cn = common_names.intern(weapons[i].name.clone());
            resources_idx.add(UniqueName::from_handle(un), CommonName::from_handle(cn));
            proof {
                assert(weapons@.take(i + 1) =~= weapons@.take(i as int).push(weapons@[i as int]));
                assert(weapon_rows(weapons@.take(i + 1)) =~= weapon_rows(
                    weapons@.take(i as int),
                ).push((weapons@[i as int].unique_name@, weapons@[i as int].name@)));
                assert(resources_idx@ =~= resource_rows(resources@) + warframe_rows(warframes@)
                    + weapon_rows(weapons@.take(i + 1)));
            }
            i = i + 1;
        }
        proof {
            assert(weapons@.take(n_wp as int) =~= weapons@);
        }

        let mut recipes_idx = Recipes::new();
        let mut requires_idx = Requires::new();
        let n_rec = recipes.len();
        let mut i: usize = 0;
        while i < n_rec
            invariant
                n_rec == recipes.len(),
                i <= n_rec,
                recipes_idx@ == recipe_rows(recipes@.take(i as int)),
                requires_idx@ == require_rows(recipes@.take(i as int)),
                counts_positive(recipes@.take(i as int)),
            decreases n_rec - i,
        {
            let recipe_un = unique_names.intern(recipes[i].unique_name.clone());
            let result_ty = unique_names.intern(recipes[i].result_type.clone());
            recipes_idx.add(UniqueName::from_handle(recipe_un), UniqueName::from_handle(result_ty));
            proof {
                assert(recipes@.take(i + 1) =~= recipes@.take(i as int).push(recipes@[i as int]));
                assert(recipe_rows(recipes@.take(i + 1)) =~= recipe_rows(
                    recipes@.take(i as int),
                ).push((recipes@[i as int].unique_name@, recipes@[i as int].result_type@)));
            }

            let n_ing = recipes[i].ingredients.len();
            let ghost ing_rows = ingredient_rows(recipes@[i as int]);
            let mut k: usize = 0;
            proof {
                assert(ing_rows.take(0) =~= Seq::<(Seq<char>, Seq<char>, u32)>::empty());
                assert(requires_idx@ =~= require_rows(recipes@.take(i as int)) + ing_rows.take(0));
            }
            while k < n_ing
                invariant
                    n_rec == recipes.len(),
                    i < n_rec,
                    n_ing == recipes@[i as int].ingredients@.len(),
                    k <= n_ing,
                    ing_rows == ingredient_rows(recipes@[i as int]),
                    ing_rows.len() == n_ing,
                    requires_idx@ == require_rows(recipes@.take(i as int)) + ing_rows.take(
                        k as int,
                    ),
                    forall|m: int|
                        0 <= m < k ==> (#[trigger] recipes@[i as int].ingredients@[m]).item_count
                            > 0,
                decreases n_ing - k,
            {
                let count = recipes[i].ingredients[k].item_count;
                if count == 0 {
                    let recipe_name = recipes[i].unique_name.clone();
                    let item_name = recipes[i].ingredients[k].item_type.clone();
                    proof {
                        assert(recipes@[i as int].ingredients@[k as int].item_count == 0);
                        assert(!counts_positive(recipes@));
                    }
                    return Result::Err(
                        BuildError::ZeroCount { recipe: recipe_name, item: item_name },
                    );
                }
                let ing_un = unique_names.intern(recipes[i].ingredients[k].item_type.clone());
                let recipe_un_again = unique_names.intern(recipes[i].unique_name.clone());
                requires_idx.add(
                    UniqueName::from_handle(recipe_un_again),
                    UniqueName::from_handle(ing_un),
                    Count(count),
                );
                proof {
                    assert(ing_rows[k as int] == (
                        recipes@[i as int].unique_name@,
                        recipes@[i as int].ingredients@[k as int].item_type@,
                        recipes@[i as int].ingredients@[k as int].item_count,
                    ));
                    assert(ing_rows.take(k + 1) =~= ing_rows.take(k as int).push(
                        ing_rows[k as int],
                    ));
                    assert(requires_idx@ =~= require_rows(recipes@.take(i as int)) + ing_rows.take(
                        k + 1,
                    ));
                }
                k = k + 1;
            }
            proof {
                assert(ing_rows.take(n_ing as int) =~= ing_rows);
                assert(require_rows(recipes@.take(i + 1)) =~= require_rows(recipes@.take(i as int))
                    + ing_rows) by {
                    let pre = recipes@.take(i as int);
                    let cur = recipes@.take(i + 1);
                    assert(cur =~= pre.push(recipes@[i as int]));
                    lemma_require_rows_push(pre, recipes@[i as int]);
                }
                assert(counts_positive(recipes@.take(i + 1))) by {
                    let cur = recipes@.take(i + 1);
                    assert forall|j: int, m: int|
                        0 <= j < cur.len() && 0 <= m < (#[trigger] cur[j]).ingredients@.len()
                            implies (#[trigger] cur[j].ingredients@[m]).item_count > 0 by {
                        if j < i {
                            assert(cur[j] == recipes@.take(i as int)[j]);
                            assert(recipes@.take(i as int)[j].ingredients@[m].item_count > 0);
                        } else {
                            assert(cur[j] == recipes@[i as int]);
                        }
                    }
                }
            }
            i = i + 1;
        }
        proof {
            assert(recipes@.take(n_rec as int) =~= recipes@);
        }

        let mut relics_idx = Relics::new();
        let mut rewards_idx = RelicRewards::new();
        let n_rel = relics.len();
        let mut i: usize = 0;
        while i < n_rel
            invariant
                n_rel == relics.len(),
                i <= n_rel,
                relics_idx@ == relic_rows(relics@.take(i as int)),
                rewards_idx@ == reward_rows(relics@.take(i as int)),
            decreases n_rel - i,
        {
            let relic_un = unique_names.intern(relics[i].unique_name.clone());
            let relic_cn = common_names.intern(relics[i].name.clone());
            relics_idx.add(UniqueName::from_handle(relic_un), CommonName::from_handle(relic_cn));
            proof {
                assert(relics@.take(i + 1) =~= relics@.take(i as int).push(relics@[i as int]));
                assert(relic_rows(relics@.take(i + 1)) =~= relic_rows(relics@.take(i as int)).push(
                    (relics@[i as int].unique_name@, relics@[i as int].name@),
                ));
            }

            let n_rw = relics[i].relic_rewards.len();
            let ghost rw_rows = reward_rows_of(relics@[i as int]);
            let mut k: usize = 0;
            proof {
                assert(rw_rows.take(0) =~= Seq::<(Seq<char>, Seq<char>, Rarity)>::empty());
                assert(rewards_idx@ =~= reward_rows(relics@.take(i as int)) + rw_rows.take(0));
            }
            while k < n_rw
                invariant
                    n_rel == relics.len(),
                    i < n_rel,
                    n_rw == relics@[i as int].relic_rewards@.len(),
                    k <= n_rw,
                    rw_rows == reward_rows_of(relics@[i as int]),
                    rw_rows.len() == n_rw,
                    rewards_idx@ == reward_rows(relics@.take(i as int)) + rw_rows.take(k as int),
                decreases n_rw - k,
            {
                let normalized = crate::text::normalize_reward_path(
                    relics[i].relic_rewards[k].reward_name.as_str(),
                );
                let reward_un = unique_names.intern(normalized);
                let relic_un_again = unique_names.intern(relics[i].unique_name.clone());
                let rar = relics[i].relic_rewards[k].rarity;
                rewards_idx.add(UniqueName::from_handle(relic_un_again), UniqueName::from_handle(reward_un), rar);
                proof {
                    assert(rw_rows[k as int] == (
                        relics@[i as int].unique_name@,
                        crate::text::normalized_path(
                            relics@[i as int].relic_rewards@[k as int].reward_name@,
                        ),
                        relics@[i as int].relic_rewards@[k as int].rarity,
                    ));
                    assert(rw_rows.take(k + 1) =~= rw_rows.take(k as int).push(rw_rows[k as int]));
                    assert(rewards_idx@ =~= reward_rows(relics@.take(i as int)) + rw_rows.take(
                        k + 1,
                    ));
                }
                k = k + 1;
            }
            proof {
                assert(rw_rows.take(n_rw as int) =~= rw_rows);
                assert(reward_rows(relics@.take(i + 1)) =~= reward_rows(relics@.take(i as int))
                    + rw_rows) by {
                    let pre = relics@.take(i as int);
                    assert(relics@.take(i + 1) =~= pre.push(relics@[i as int]));
                    lemma_reward_rows_push(pre, relics@[i as int]);
                }
            }
            i = i + 1;
        }
        proof {
            assert(relics@.take(n_rel as int) =~= relics@);
        }

        let mut active = ActiveRelics::new();
        let farmable = crate::cache::droptable::active_relics(&droptable_cells);
        let n_act = farmable.len();
        let mut i: usize = 0;
        while i < n_act
            invariant
                n_act == farmable.len(),
                i <= n_act,
                farmable.deep_view().len() == n_act,
                forall|j: int| 0 <= j < n_act ==> farmable.deep_view()[j] == (
                #[trigger] farmable@[j])@,
                active@ == farmable.deep_view().take(i as int),
            decreases n_act - i,
        {
            let cn = common_names.intern(farmable[i].clone());
            active.add(CommonName::from_handle(cn));
            proof {
                assert(farmable.deep_view().take(i + 1) =~= farmable.deep_view().take(
                    i as int,
                ).push(farmable.deep_view()[i as int]));
            }
            i = i + 1;
        }
        proof {
            assert(farmable.deep_view().take(n_act as int) =~= farmable.deep_view());
        }

        let mut resurgence = ResurgenceRelics::new();
        let rotation = crate::cache::worldstate::resurgence_relics(&vendor_item_paths);
        let n_rot = rotation.len();
        let mut i: usize = 0;
        while i < n_rot
            invariant
                n_rot == rotation.len(),
                i <= n_rot,
                rotation.deep_view().len() == n_rot,
                forall|j: int| 0 <= j < n_rot ==> rotation.deep_view()[j] == (
                #[trigger] rotation@[j])@,
                resurgence@ == rotation.deep_view().take(i as int),
            decreases n_rot - i,
        {
            let un = unique_names.intern(rotation[i].clone());
            resurgence.add(UniqueName::from_handle(un));
            proof {
                assert(rotation.deep_view().take(i + 1) =~= rotation.deep_view().take(
                    i as int,
                ).push(rotation.deep_view()[i as int]));
            }
            i = i + 1;
        }
        proof {
            assert(rotation.deep_view().take(n_rot as int) =~= rotation.deep_view());
        }

        let mut invasions_set = Invasions::new();
        let invading = crate::cache::worldstate::invasions(invasion_feed);
        let n_inv = invading.len();
        let mut i: usize = 0;
        while i < n_inv
            invariant
                n_inv == invading.len(),
                i <= n_inv,
                invading.deep_view().len() == n_inv,
                forall|j: int| 0 <= j < n_inv ==> invading.deep_view()[j] == (
                #[trigger] invading@[j])@,
                invasions_set@ == invading.deep_view().take(i as int),
            decreases n_inv - i,
        {
            let un = unique_names.intern(invading[i].clone());
            invasions_set.add(UniqueName::from_handle(un));
            proof {
                assert(invading.deep_view().take(i + 1) =~= invading.deep_view().take(
                    i as int,
                ).push(invading.deep_view()[i as int]));
            }
            i = i + 1;
        }
        proof {
            assert(invading.deep_view().take(n_inv as int) =~= invading.deep_view());
        }

        Result::Ok(
            Data {
                active_relics: active,
                invasions: invasions_set,
                recipes: recipes_idx,
                relics: relics_idx,
                relic_rewards: rewards_idx,
                requires: requires_idx,
                resources: resources_idx,
                resurgence_relics: resurgence,
            },
        )
    }
}

/// The requirement rows of one more recipe extend the flattened list on
/// the right.
proof fn lemma_require_rows_push(rs: Seq<crate::cache::recipes::Recipe>, r: crate::cache::recipes::Recipe)
    ensures
        require_rows(rs.push(r)) == require_rows(rs) + ingredient_rows(r),
    decreases rs.len(),
{
    if rs.len() == 0 {
        assert(rs.push(r)[0] == r);
        assert(rs.push(r).drop_first() =~= Seq::<crate::cache::recipes::Recipe>::empty());
        assert(require_rows(Seq::<crate::cache::recipes::Recipe>::empty()) =~= Seq::<
            (Seq<char>, Seq<char>, u32),
        >::empty());
        assert(require_rows(rs.push(r)) =~= ingredient_rows(r));
        assert(require_rows(rs) + ingredient_rows(r) =~= ingredient_rows(r));
    } else {
        assert(rs.push(r)[0] == rs[0]);
        assert(rs.push(r).drop_first() =~= rs.drop_first().push(r));
        lemma_require_rows_push(rs.drop_first(), r);
        assert((ingredient_rows(rs[0]) + (require_rows(rs.drop_first()) + ingredient_rows(r)))
            =~= (ingredient_rows(rs[0]) + require_rows(rs.drop_first())) + ingredient_rows(r));
    }
}

/// The reward rows of one more relic extend the flattened list on the
/// right.
proof fn lemma_reward_rows_push(rs: Seq<crate::cache::relics::Relic>, r: crate::cache::relics::Relic)
    ensures
        reward_rows(rs.push(r)) == reward_rows(rs) + reward_rows_of(r),
    decreases rs.len(),
{
    if rs.len() == 0 {
        assert(rs.push(r)[0] == r);
        assert(rs.push(r).drop_first() =~= Seq::<crate::cache::relics::Relic>::empty());
        assert(reward_rows(Seq::<crate::cache::relics::Relic>::empty()) =~= Seq::<
            (Seq<char>, Seq<char>, Rarity),
        >::empty());
        assert(reward_rows(rs.push(r)) =~= reward_rows_of(r));
        assert(reward_rows(rs) + reward_rows_of(r) =~= reward_rows_of(r));
    } else {
        assert(rs.push(r)[0] == rs[0]);
        assert(rs.push(r).drop_first() =~= rs.drop_first().push(r));
        lemma_reward_rows_push(rs.drop_first(), r);
        assert((reward_rows_of(rs[0]) + (reward_rows(rs.drop_first()) + reward_rows_of(r)))
            =~= (reward_rows_of(rs[0]) + reward_rows(rs.drop_first())) + reward_rows_of(r));
    }
}

} // verus!
