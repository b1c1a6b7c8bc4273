//! The RelicRewards index: which relics can drop a reward item, and at
//! which rarity.
use vstd::prelude::*;

verus! {

use crate::relic::Rarity;
use crate::structures::types::UniqueName;
use crate::text::str_eq;

/// One row per relic, reward item, and rarity, in insertion order.
#[derive(Debug)]
pub struct RelicRewards {
    rows: Vec<(UniqueName, UniqueName, Rarity)>,
}

/// The relic key and rarity of every row whose reward key equals the
/// key exactly, in row order.
pub open spec fn rewards_for(rows: Seq<(Seq<char>, Seq<char>, Rarity)>, key: Seq<char>) -> Seq<
    (Seq<char>, Rarity),
>
    decreases rows.len(),
{
    if rows.len() == 0 {
        Seq::empty()
    } else if rows[0].1 == key {
        seq![(rows[0].0, rows[0].2)] + rewards_for(rows.drop_first(), key)
    } else {
        rewards_for(rows.drop_first(), key)
    }
}

impl View for RelicRewards {
    type V = Seq<(Seq<char>, Seq<char>, Rarity)>;

    closed spec fn view(&self) -> Seq<(Seq<char>, Seq<char>, Rarity)> {
        self.rows@.map_values(|row: (UniqueName, UniqueName, Rarity)| (row.0@, row.1@, row.2))
    }
}

impl RelicRewards {
    /// An empty index.
    pub fn new() -> (r: Self)
        ensures
            r@ == Seq::<(Seq<char>, Seq<char>, Rarity)>::empty(),
    {
        let r = RelicRewards { rows: Vec::new() };
        proof {
            assert(r@ =~= Seq::<(Seq<char>, Seq<char>, Rarity)>::empty());
        }
        r
    }

    /// Every relic that can drop a reward item, with its rarity, in row
    /// order.
    pub fn fetch_by_reward_unique_name(&self, unique_name: UniqueName) -> (r: Vec<
        (UniqueName, Rarity),
    >)
        ensures
            r@.map_values(|p: (UniqueName, Rarity)| (p.0@, p.1)) == rewards_for(
                self@,
                unique_name@,
            ),
    {
        let n = self.rows.len();
        let mut out: Vec<(UniqueName, Rarity)> = Vec::new();
        let ghost outv = out@.map_values(|p: (UniqueName, Rarity)| (p.0@, p.1));
        let mut i: usize = 0;
        proof {
            assert(self@.skip(0) =~= self@);
            assert(outv =~= Seq::<(Seq<char>, Rarity)>::empty());
        }
        while i < n
            invariant
                n == self.rows.len(),
                i <= n,
                self@.len() == n,
                forall|j: int|
                    0 <= j < n ==> self@[j] == (self.rows@[j].0@, self.rows@[j].1@, self.rows@[j].2),
                rewards_for(self@, unique_name@) == out@.map_values(
                    |p: (UniqueName, Rarity)| (p.0@, p.1),
                ) + rewards_for(self@.skip(i as int), unique_name@),
            decreases n - i,
        {
            proof {
                assert(self@.skip(i as int)[0] == self@[i as int]);
                assert(self@.skip(i as int).drop_first() =~= self@.skip(i + 1));
            }
            if str_eq(self.rows[i].1.as_str(), unique_name.as_str()) {
                let ghost pre = out@.map_values(|p: (UniqueName, Rarity)| (p.0@, p.1));
                out.push((self.rows[i].0.clone(), self.rows[i].2));
                proof {
                    assert(out@.map_values(|p: (UniqueName, Rarity)| (p.0@, p.1)) =~= pre.push(
                        (self@[i as int].0, self@[i as int].2),
                    ));
                    assert(out@.map_values(|p: (UniqueName, Rarity)| (p.0@, p.1)) + rewards_for(
                        self@.skip(i + 1),
                        unique_name@,
                    ) =~= pre + rewards_for(self@.skip(i as int), unique_name@));
                }
            }
            i = i + 1;
        }
        proof {
            assert(rewards_for(self@.skip(i as int), unique_name@) =~= Seq::<
                (Seq<char>, Rarity),
            >::empty());
            assert(out@.map_values(|p: (UniqueName, Rarity)| (p.0@, p.1)) =~= rewards_for(
                self@,
                unique_name@,
            ));
        }
        out
    }

    /// Appends one row.
    pub fn add(&mut self, relic_unique_name: UniqueName, reward_unique_name: UniqueName, reward_rarity: Rarity)
        ensures
            final(self)@ == old(self)@.push((relic_unique_name@, reward_unique_name@, reward_rarity)),
    {
        let ghost rel = relic_unique_name@;
        let ghost rew = reward_unique_name@;
        self.rows.push((relic_unique_name, reward_unique_name, reward_rarity));
        proof {
            assert(self@ =~= old(self)@.push((rel, rew, reward_rarity)));
        }
    }
}

} // verus!
