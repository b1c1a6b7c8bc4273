//! The Resources index: identity key to display name and back.
use vstd::prelude::*;

verus! {

use crate::structures::lookup_fst_ci;
use crate::structures::lookup_snd_ci;
use crate::structures::types::CommonName;
use crate::structures::types::UniqueName;
use crate::text::eq_ignore_case;

/// All items the catalog knows, one row per identity key and display
/// name pair, in insertion order.
#[derive(Debug)]
pub struct Resources {
    rows: Vec<(UniqueName, CommonName)>,
}

impl View for Resources {
    type V = Seq<(Seq<char>, Seq<char>)>;

    closed spec fn view(&self) -> Seq<(Seq<char>, Seq<char>)> {
        self.rows@.map_values(|row: (UniqueName, CommonName)| (row.0@, row.1@))
    }
}

impl Resources {
    /// An empty index.
    pub fn new() -> (r: Self)
        ensures
            r@ == Seq::<(Seq<char>, Seq<char>)>::empty(),
    {
        let r = Resources { rows: Vec::new() };
        proof {
            assert(r@ =~= Seq::<(Seq<char>, Seq<char>)>::empty());
        }
        r
    }

    /// The display name recorded for an identity key: the first row
    /// whose key matches case-insensitively, when there is one.
    pub fn fetch_by_unique_name(&self, unique_name: UniqueName) -> (r: Option<CommonName>)
        ensures
            match r {
                Option::Some(cn) => lookup_fst_ci(self@, unique_name@) == Option::Some(cn@),
                Option::None => lookup_fst_ci(self@, unique_name@) == Option::<Seq<char>>::None,
            },
    {
        let n = self.rows.len();
        let mut i: usize = 0;
        proof {
            assert(self@.skip(0) =~= self@);
        }
        while i < n
            invariant
                n == self.rows.len(),
                i <= n,
                self@.len() == n,
                forall|j: int| 0 <= j < n ==> self@[j] == (self.rows@[j].0@, self.rows@[j].1@),
                lookup_fst_ci(self@, unique_name@) == lookup_fst_ci(
                    self@.skip(i as int),
                    unique_name@,
                ),
            decreases n - i,
        {
            if eq_ignore_case(self.rows[i].0.as_str(), unique_name.as_str()) {
                proof {
                    assert(self@.skip(i as int)[0] == self@[i as int]);
                }
                return Option::Some(self.rows[i].1.clone());
            }
            proof {
                assert(self@.skip(i as int)[0] == self@[i as int]);
                assert(self@.skip(i as int).drop_first() =~= self@.skip(i + 1));
            }
            i = i + 1;
        }
        proof {
            assert(self@.skip(i as int).len() == 0);
        }
        Option::None
    }

    /// The identity key recorded for a display name: the first row whose
    /// name matches case-insensitively, when there is one.  Display names
    /// need not be unique; the first match wins.
    pub fn fetch_by_common_name(&self, common_name: CommonName) -> (r: Option<UniqueName>)
        ensures
            match r {
                Option::Some(un) => lookup_snd_ci(self@, common_name@) == Option::Some(un@),
                Option::None => lookup_snd_ci(self@, common_name@) == Option::<Seq<char>>::None,
            },
    {
        let n = self.rows.len();
        let mut i: usize = 0;
        proof {
            assert(self@.skip(0) =~= self@);
        }
        while i < n
            invariant
                n == self.rows.len(),
                i <= n,
                self@.len() == n,
                forall|j: int| 0 <= j < n ==> self@[j] == (self.rows@[j].0@, self.rows@[j].1@),
                lookup_snd_ci(self@, common_name@) == lookup_snd_ci(
                    self@.skip(i as int),
                    common_name@,
                ),
            decreases n - i,
        {
            if eq_ignore_case(self.rows[i].1.as_str(), common_name.as_str()) {
                proof {
                    assert(self@.skip(i as int)[0] == self@[i as int]);
                }
                return Option::Some(self.rows[i].0.clone());
            }
            proof {
                assert(self@.skip(i as int)[0] == self@[i as int]);
                assert(self@.skip(i as int).drop_first() =~= self@.skip(i + 1));
            }
            i = i + 1;
        }
        proof {
            assert(self@.skip(i as int).len() == 0);
        }
        Option::None
    }

    /// Appends one row.
    pub fn add(&mut self, unique_name: UniqueName, common_name: CommonName)
        ensures
            final(self)@ == old(self)@.push((unique_name@, common_name@)),
    {
        let ghost un = unique_name@;
        let ghost cn = common_name@;
        self.rows.push((unique_name, common_name));
        proof {
            assert(self@ =~= old(self)@.push((un, cn)));
        }
    }
}

} // verus!
