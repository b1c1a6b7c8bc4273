//! The set of item identity keys currently obtainable as invasion
//! rewards.
use vstd::prelude::*;

verus! {

use crate::structures::types::UniqueName;
use crate::text::str_eq;

/// Identity keys of the items in the current invasion reward feed.
#[derive(Debug)]
pub struct Invasions {
    unique_names: Vec<UniqueName>,
}

impl View for Invasions {
    type V = Seq<Seq<char>>;

    closed spec fn view(&self) -> Seq<Seq<char>> {
        self.unique_names.deep_view()
    }
}

impl Invasions {
    /// An empty set.
    pub fn new() -> (r: Self)
        ensures
            r@ == Seq::<Seq<char>>::empty(),
    {
        let r = Invasions { unique_names: Vec::new() };
        proof {
            assert(r@ =~= Seq::<Seq<char>>::empty());
        }
        r
    }

    /// Whether an item of this identity key drops from an invasion.
    pub fn drops_from_invasion(&self, unique_name: UniqueName) -> (r: bool)
        ensures
            r == self@.contains(unique_name@),
    {
        let n = self.unique_names.len();
        let mut i: usize = 0;
        while i < n
            invariant
                n == self.unique_names.len(),
                self@.len() == n,
                i <= n,
                forall|j: int| 0 <= j < n ==> self@[j] == self.unique_names@[j]@,
                forall|j: int| 0 <= j < i ==> self@[j] != unique_name@,
            decreases n - i,
        {
            if str_eq(self.unique_names[i].as_str(), unique_name.as_str()) {
                proof {
                    assert(self@[i as int] == unique_name@);
                }
                return true;
            }
            i = i + 1;
        }
        false
    }

    /// Records one more identity key.
    pub fn add(&mut self, unique_name: UniqueName)
        ensures
            final(self)@ == old(self)@.push(unique_name@),
    {
        let ghost un = unique_name@;
        self.unique_names.push(unique_name);
        proof {
            assert(self@ =~= old(self)@.push(un));
        }
    }
}

} // verus!
