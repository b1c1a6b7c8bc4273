//! The set of relics farmable this rotation, keyed by display name as
//! the scraped drop table reports them.
use vstd::prelude::*;

verus! {

use crate::structures::types::CommonName;
use crate::text::str_eq;

/// Display names of the relics obtainable from missions this rotation.
#[derive(Debug)]
pub struct ActiveRelics {
    common_names: Vec<CommonName>,
}

impl View for ActiveRelics {
    type V = Seq<Seq<char>>;

    closed spec fn view(&self) -> Seq<Seq<char>> {
        self.common_names.deep_view()
    }
}

impl ActiveRelics {
    /// An empty set.
    pub fn new() -> (r: Self)
        ensures
            r@ == Seq::<Seq<char>>::empty(),
    {
        let r = ActiveRelics { common_names: Vec::new() };
        proof {
            assert(r@ =~= Seq::<Seq<char>>::empty());
        }
        r
    }

    /// Whether a relic of this display name is farmable this rotation.
    pub fn is_active(&self, common_name: CommonName) -> (r: bool)
        ensures
            r == self@.contains(common_name@),
    {
        let n = self.common_names.len();
        let mut i: usize = 0;
        while i < n
            invariant
                n == self.common_names.len(),
                self@.len() == n,
                i <= n,
                forall|j: int| 0 <= j < n ==> self@[j] == self.common_names@[j]@,
                forall|j: int| 0 <= j < i ==> self@[j] != common_name@,
            decreases n - i,
        {
            if str_eq(self.common_names[i].as_str(), common_name.as_str()) {
                proof {
                    assert(self@[i as int] == common_name@);
                }
                return true;
            }
            i = i + 1;
        }
        false
    }

    /// Records one more display name.
    pub fn add(&mut self, common_name: CommonName)
        ensures
            final(self)@ == old(self)@.push(common_name@),
    {
        let ghost cn = common_name@;
        self.common_names.push(common_name);
        proof {
            assert(self@ =~= old(self)@.push(cn));
        }
    }
}

} // verus!
