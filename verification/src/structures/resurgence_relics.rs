//! The set of relics obtainable from the time-limited vendor rotation,
//! keyed by identity key as the world-state feed reports them.
use vstd::prelude::*;

verus! {

use crate::structures::types::UniqueName;
use crate::text::str_eq;

/// Identity keys of the relics in the current vendor rotation.
#[derive(Debug)]
pub struct ResurgenceRelics {
    unique_names: Vec<UniqueName>,
}

impl View for ResurgenceRelics {
    type V = Seq<Seq<char>>;

    closed spec fn view(&self) -> Seq<Seq<char>> {
        self.unique_names.deep_view()
    }
}

impl ResurgenceRelics {
    /// An empty set.
    pub fn new() -> (r: Self)
        ensures
            r@ == Seq::<Seq<char>>::empty(),
    {
        let r = ResurgenceRelics { unique_names: Vec::new() };
        proof {
            assert(r@ =~= Seq::<Seq<char>>::empty());
        }
        r
    }

    /// Whether a relic of this identity key is in the vendor rotation.
    pub fn is_active(&self, unique_name: UniqueName) -> (r: bool)
        ensures
            r == self@.contains(unique_name@),
    {
        let n = self.unique_names.len();
        let mut i: usize = 0;
        while i < n
            invariant
                n == self.unique_names.len(),
                self@.len() == n,
                i <= n,
                forall|j: int| 0 <= j < n ==> self@[j] == self.unique_names@[j]@,
                forall|j: int| 0 <= j < i ==> self@[j] != unique_name@,
            decreases n - i,
        {
            if str_eq(self.unique_names[i].as_str(), unique_name.as_str()) {
                proof {
                    assert(self@[i as int] == unique_name@);
                }
                return true;
            }
            i = i + 1;
        }
        false
    }

    /// Records one more identity key.
    pub fn add(&mut self, unique_name: UniqueName)
        ensures
            final(self)@ == old(self)@.push(unique_name@),
    {
        let ghost un = unique_name@;
        self.unique_names.push(unique_name);
        proof {
            assert(self@ =~= old(self)@.push(un));
        }
    }
}

} // verus!
