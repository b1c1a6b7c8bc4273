//! The read surface an item presents to consumers: its names, the
//! relic sources it can drop from, and whether an invasion offers it.
use vstd::prelude::*;

verus! {

use crate::relic::Rarity;
use crate::relic::Relic;
use crate::structures::types::CommonName;
use crate::structures::types::UniqueName;

/// The views of a relic list.
pub open spec fn relic_views(s: Seq<Relic>) -> Seq<(Seq<char>, Rarity)> {
    s.map_values(|x: Relic| x@)
}

/// Copies a relic list.
pub fn clone_relics(v: &Vec<Relic>) -> (r: Vec<Relic>)
    ensures
        relic_views(r@) == relic_views(v@),
{
    let n = v.len();
    let mut out: Vec<Relic> = Vec::new();
    let mut i: usize = 0;
    proof {
        assert(relic_views(out@) =~= relic_views(v@).take(0));
    }
    while i < n
        invariant
            n == v.len(),
            i <= n,
            relic_views(out@) == relic_views(v@).take(i as int),
        decreases n - i,
    {
        let ghost pre = relic_views(out@);
        out.push(v[i].clone());
        proof {
            assert(relic_views(out@) =~= pre.push(v@[i as int]@));
            assert(relic_views(v@).take(i + 1) =~= relic_views(v@).take(i as int).push(
                relic_views(v@)[i as int],
            ));
        }
        i = i + 1;
    }
    proof {
        assert(relic_views(v@).take(n as int) =~= relic_views(v@));
    }
    out
}

/// What every tracked item exposes: its two names, the relics it can
/// currently drop from through the active and vendor rotations, and
/// whether an invasion currently rewards it.
pub trait ItemView {
    /// The display name shown for this item.
    spec fn common_name_v(&self) -> Seq<char>;

    /// The identity key of this item.
    spec fn unique_name_v(&self) -> Seq<char>;

    /// The relic sources visible through the active rotation.
    spec fn active_relics_v(&self) -> Seq<(Seq<char>, Rarity)>;

    /// The relic sources visible through the vendor rotation.
    spec fn resurgence_relics_v(&self) -> Seq<(Seq<char>, Rarity)>;

    /// Whether an invasion currently rewards this item.
    spec fn invasion_v(&self) -> bool;

    /// The display name shown for this item.
    fn common_name(&self) -> (r: CommonName)
        ensures
            r@ == self.common_name_v(),
    ;

    /// The identity key of this item.
    fn unique_name(&self) -> (r: UniqueName)
        ensures
            r@ == self.unique_name_v(),
    ;

    /// The relic sources visible through the active rotation.
    fn active_relics(&self) -> (r: Vec<Relic>)
        ensures
            relic_views(r@) == self.active_relics_v(),
    ;

    /// The relic sources visible through the vendor rotation.
    fn resurgence_relics(&self) -> (r: Vec<Relic>)
        ensures
            relic_views(r@) == self.resurgence_relics_v(),
    ;

    /// Whether an invasion currently rewards this item.
    fn available_from_invasion(&self) -> (r: bool)
        ensures
            r == self.invasion_v(),
    ;
}

} // verus!
