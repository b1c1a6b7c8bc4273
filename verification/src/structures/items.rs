//! The Items index: identity key to display name and back, by exact
//! match, where re-adding a key supersedes the earlier row.
use vstd::prelude::*;

verus! {

use crate::structures::types::CommonName;
use crate::structures::types::UniqueName;
use crate::text::str_eq;

/// One row per added item, in insertion order; the latest row for a key
/// wins.
#[derive(Debug)]
pub struct Items {
    rows: Vec<(UniqueName, CommonName)>,
}

/// The second component of the latest pair whose first component equals
/// the key exactly.
pub open spec fn latest_fst(rows: Seq<(Seq<char>, Seq<char>)>, key: Seq<char>) -> Option<Seq<char>>
    decreases rows.len(),
{
    if rows.len() == 0 {
        Option::None
    } else if rows.last().0 == key {
        Option::Some(rows.last().1)
    } else {
        latest_fst(rows.drop_last(), key)
    }
}

/// The first component of the latest pair whose second component equals
/// the key exactly.
pub open spec fn latest_snd(rows: Seq<(Seq<char>, Seq<char>)>, key: Seq<char>) -> Option<Seq<char>>
    decreases rows.len(),
{
    if rows.len() == 0 {
        Option::None
    } else if rows.last().1 == key {
        Option::Some(rows.last().0)
    } else {
        latest_snd(rows.drop_last(), key)
    }
}

impl View for Items {
    type V = Seq<(Seq<char>, Seq<char>)>;

    closed spec fn view(&self) -> Seq<(Seq<char>, Seq<char>)> {
        self.rows@.map_values(|row: (UniqueName, CommonName)| (row.0@, row.1@))
    }
}

impl Items {
    /// An empty index.
    pub fn new() -> (r: Self)
        ensures
            r@ == Seq::<(Seq<char>, Seq<char>)>::empty(),
    {
        let r = Items { rows: Vec::new() };
        proof {
            assert(r@ =~= Seq::<(Seq<char>, Seq<char>)>::empty());
        }
        r
    }

    /// The display name recorded last for an identity key, when the key
    /// was ever added.
    pub fn fetch_by_unique_name(&self, unique_name: UniqueName) -> (r: Option<CommonName>)
        ensures
            match r {
                Option::Some(cn) => latest_fst(self@, unique_name@) == Option::Some(cn@),
                Option::None => latest_fst(self@, unique_name@) == Option::<Seq<char>>::None,
            },
    {
        let n = self.rows.len();
        let mut i: usize = n;
        proof {
            assert(self@.take(n as int) =~= self@);
        }
        while i > 0
            invariant
                n == self.rows.len(),
                i <= n,
                self@.len() == n,
                forall|j: int| 0 <= j < n ==> self@[j] == (self.rows@[j].0@, self.rows@[j].1@),
                latest_fst(self@, unique_name@) == latest_fst(
                    self@.take(i as int),
                    unique_name@,
                ),
            decreases i,
        {
            i = i - 1;
            proof {
                assert(self@.take(i + 1).last() == self@[i as int]);
                assert(self@.take(i + 1).drop_last() =~= self@.take(i as int));
            }
            if str_eq(self.rows[i].0.as_str(), unique_name.as_str()) {
                return Option::Some(self.rows[i].1.clone());
            }
        }
        proof {
            assert(self@.take(0).len() == 0);
        }
        Option::None
    }

    /// The identity key recorded last for a display name, when the name
    /// was ever added.
    pub fn fetch_by_common_name(&self, common_name: CommonName) -> (r: Option<UniqueName>)
        ensures
            match r {
                Option::Some(un) => latest_snd(self@, common_name@) == Option::Some(un@),
                Option::None => latest_snd(self@, common_name@) == Option::<Seq<char>>::None,
            },
    {
        let n = self.rows.len();
        let mut i: usize = n;
        proof {
            assert(self@.take(n as int) =~= self@);
        }
        while i > 0
            invariant
                n == self.rows.len(),
                i <= n,
                self@.len() == n,
                forall|j: int| 0 <= j < n ==> self@[j] == (self.rows@[j].0@, self.rows@[j].1@),
                latest_snd(self@, common_name@) == latest_snd(
                    self@.take(i as int),
                    common_name@,
                ),
            decreases i,
        {
            i = i - 1;
            proof {
                assert(self@.take(i + 1).last() == self@[i as int]);
                assert(self@.take(i + 1).drop_last() =~= self@.take(i as int));
            }
            if str_eq(self.rows[i].1.as_str(), common_name.as_str()) {
                return Option::Some(self.rows[i].0.clone());
            }
        }
        proof {
            assert(self@.take(0).len() == 0);
        }
        Option::None
    }

    /// Appends one row; a later row for the same key supersedes this
    /// one.
    pub fn add(&mut self, unique_name: UniqueName, common_name: CommonName)
        ensures
            final(self)@ == old(self)@.push((unique_name@, common_name@)),
    {
        let ghost un = unique_name@;
        let ghost cn = common_name@;
        self.rows.push((unique_name, common_name));
        proof {
            assert(self@ =~= old(self)@.push((un, cn)));
        }
    }
}

} // verus!
