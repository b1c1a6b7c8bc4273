//! The world-state feed: invasion rewards and the vendor rotation of
//! resurgence relics.
use vstd::prelude::*;

verus! {

use crate::text::has_prefix;
use crate::text::normalize_reward_path;
use crate::text::normalized_path;
use crate::text::starts_with_str;

/// One counted reward item of an invasion.
#[derive(Debug)]
pub struct CountedItem {
    pub item_type: String,
}

/// One faction's reward list in an invasion.
#[derive(Debug)]
pub struct Reward {
    pub counted_items: Vec<CountedItem>,
}

/// The upstream feed publishes a reward either as an object or as an
/// explicitly empty list; both shapes are carried as one variant type.
#[derive(Debug)]
pub enum RewardOrEmptyVec {
    Reward(Reward),
    EmptyVec,
}

impl RewardOrEmptyVec {
    /// The reward under either shape: the empty list stands for a
    /// reward with no items.
    pub fn into_reward(self) -> (r: Reward)
        ensures
            self matches RewardOrEmptyVec::Reward(rw) ==> r == rw,
            self matches RewardOrEmptyVec::EmptyVec ==> r.counted_items@.len() == 0,
    {
        match self {
            RewardOrEmptyVec::Reward(r) => r,
            RewardOrEmptyVec::EmptyVec => Reward { counted_items: Vec::new() },
        }
    }
}

/// One active invasion: the attacker's and the defender's reward.
#[derive(Debug)]
pub struct Invasion {
    pub attacker_reward: RewardOrEmptyVec,
    pub defender_reward: RewardOrEmptyVec,
}

/// One item of a vendor's manifest.
#[derive(Debug)]
pub struct Item {
    pub item_type: String,
}

/// One vendor of the resurgence rotation, with its manifest of store
/// items.
#[derive(Debug)]
pub struct PrimeVaultTrader {
    pub manifest: Vec<Item>,
}

/// The item identity keys a reward offers; an empty-list reward offers
/// none.
pub open spec fn reward_item_names(r: RewardOrEmptyVec) -> Seq<Seq<char>> {
    match r {
        RewardOrEmptyVec::Reward(rw) => rw.counted_items@.map_values(
            |ci: CountedItem| ci.item_type@,
        ),
        RewardOrEmptyVec::EmptyVec => Seq::empty(),
    }
}

/// The item identity keys one invasion offers: the attacker's rewards,
/// then the defender's.
pub open spec fn invasion_item_names(inv: Invasion) -> Seq<Seq<char>> {
    reward_item_names(inv.attacker_reward) + reward_item_names(inv.defender_reward)
}

/// The item identity keys all invasions offer, in feed order.
pub open spec fn invasions_of(list: Seq<Invasion>) -> Seq<Seq<char>>
    decreases list.len(),
{
    if list.len() == 0 {
        Seq::empty()
    } else {
        invasion_item_names(list[0]) + invasions_of(list.drop_first())
    }
}

/// Copies one reward's item identity keys onto the end of a list.
fn push_reward_items(out: &mut Vec<String>, reward: &Reward)
    ensures
        final(out).deep_view() == old(out).deep_view() + reward.counted_items@.map_values(
            |ci: CountedItem| ci.item_type@,
        ),
{
    let ghost base = out.deep_view();
    let ghost items = reward.counted_items@.map_values(|ci: CountedItem| ci.item_type@);
    let n = reward.counted_items.len();
    let mut i: usize = 0;
    proof {
        assert(base + items.take(0) =~= base);
        assert(out.deep_view() =~= base + items.take(0));
    }
    while i < n
        invariant
            n == reward.counted_items.len(),
            i <= n,
            items == reward.counted_items@.map_values(|ci: CountedItem| ci.item_type@),
            items.len() == n,
            base + items.take(i as int) == out.deep_view(),
        decreases n - i,
    {
        let ghost pre = out.deep_view();
        out.push(reward.counted_items[i].item_type.clone());
        proof {
            assert(out.deep_view() =~= pre.push(items[i as int]));
            assert(items.take(i + 1) =~= items.take(i as int).push(items[i as int]));
            assert(base + items.take(i + 1) =~= out.deep_view());
        }
        i = i + 1;
    }
    proof {
        assert(items.take(n as int) =~= items);
        assert(out.deep_view() =~= base + items);
    }
}

/// Flattens the invasion feed to the item identity keys currently
/// obtainable as invasion rewards, attacker's rewards before the
/// defender's, in feed order.
pub fn invasions(list: Vec<Invasion>) -> (r: Vec<String>)
    ensures
        r.deep_view() == invasions_of(list@),
{
    let ghost lv = list@;
    let mut out: Vec<String> = Vec::new();
    let mut i: usize = 0;
    let n = list.len();
    proof {
        assert(lv.skip(0) =~= lv);
        assert(out.deep_view() =~= Seq::<Seq<char>>::empty());
    }
    while i < n
        invariant
            n == list.len(),
            i <= n,
            lv == list@,
            invasions_of(lv) == out.deep_view() + invasions_of(lv.skip(i as int)),
        decreases n - i,
    {
        proof {
            assert(lv.skip(i as int)[0] == lv[i as int]);
            assert(lv.skip(i as int).drop_first() =~= lv.skip(i + 1));
        }
        let ghost pre = out.deep_view();
        let inv = &list[i];
        match &inv.attacker_reward {
            RewardOrEmptyVec::Reward(rw) => {
                push_reward_items(&mut out, rw);
            },
            RewardOrEmptyVec::EmptyVec => {
                proof {
                    assert(out.deep_view() =~= pre + reward_item_names(lv[i as int].attacker_reward));
                }
            },
        }
        proof {
            assert(out.deep_view() =~= pre + reward_item_names(lv[i as int].attacker_reward));
        }
        let ghost mid = out.deep_view();
        match &inv.defender_reward {
            RewardOrEmptyVec::Reward(rw) => {
                push_reward_items(&mut out, rw);
            },
            RewardOrEmptyVec::EmptyVec => {
                proof {
                    assert(out.deep_view() =~= mid + reward_item_names(lv[i as int].defender_reward));
                }
            },
        }
        proof {
            assert(out.deep_view() =~= mid + reward_item_names(lv[i as int].defender_reward));
            assert(out.deep_view() =~= pre + invasion_item_names(lv[i as int]));
            assert(out.deep_view() + invasions_of(lv.skip(i + 1)) =~= pre + invasions_of(
                lv.skip(i as int),
            ));
        }
        i = i + 1;
    }
    proof {
        assert(invasions_of(lv.skip(i as int)) =~= Seq::<Seq<char>>::empty());
        assert(out.deep_view() =~= invasions_of(lv));
    }
    out
}

/// The projection-type prefix that marks a store item as a relic.
pub open spec fn projection_prefix() -> Seq<char> {
    "/Lotus/StoreItems/Types/Game/Projections/"@
}

/// The resurgence relics a vendor rotation offers: the store item paths
/// under the projection-type prefix, each in its normal form, in feed
/// order.
pub open spec fn resurgence_relics_of(paths: Seq<Seq<char>>) -> Seq<Seq<char>>
    decreases paths.len(),
{
    if paths.len() == 0 {
        Seq::empty()
    } else if has_prefix(paths[0], projection_prefix()) {
        seq![normalized_path(paths[0])] + resurgence_relics_of(paths.drop_first())
    } else {
        resurgence_relics_of(paths.drop_first())
    }
}

/// Filters a vendor rotation's store item paths to the relic
/// projections, each rewritten to its normal identity key.
pub fn resurgence_relics(paths: &Vec<String>) -> (r: Vec<String>)
    ensures
        r.deep_view() == resurgence_relics_of(paths.deep_view()),
{
    let n = paths.len();
    let ghost pv = paths.deep_view();
    let mut out: Vec<String> = Vec::new();
    let mut i: usize = 0;
    proof {
        assert(pv.skip(0) =~= pv);
        assert(out.deep_view() =~= Seq::<Seq<char>>::empty());
    }
    while i < n
        invariant
            n == paths.len(),
            i <= n,
            pv == paths.deep_view(),
            pv.len() == n,
            forall|j: int| 0 <= j < n ==> pv[j] == (#[trigger] paths@[j])@,
            resurgence_relics_of(pv) == out.deep_view() + resurgence_relics_of(pv.skip(i as int)),
        decreases n - i,
    {
        proof {
            assert(pv.skip(i as int)[0] == pv[i as int]);
            assert(pv.skip(i as int).drop_first() =~= pv.skip(i + 1));
        }
        if starts_with_str(paths[i].as_str(), "/Lotus/StoreItems/Types/Game/Projections/") {
            let ghost pre = out.deep_view();
            out.push(normalize_reward_path(paths[i].as_str()));
            proof {
                assert(out.deep_view() =~= pre.push(normalized_path(pv[i as int])));
                assert(out.deep_view() + resurgence_relics_of(pv.skip(i + 1)) =~= pre
                    + resurgence_relics_of(pv.skip(i as int)));
            }
        }
        i = i + 1;
    }
    proof {
        assert(resurgence_relics_of(pv.skip(i as int)) =~= Seq::<Seq<char>>::empty());
        assert(out.deep_view() =~= resurgence_relics_of(pv));
    }
    out
}

} // verus!
