//! The Recipes index: recipe identity key to result item identity key.
use vstd::prelude::*;

verus! {

use crate::structures::lookup_fst_ci;
use crate::structures::matches_snd_exact;
use crate::structures::types::UniqueName;
use crate::text::eq_ignore_case;
use crate::text::str_eq;

/// All recipes, one row per recipe identity key and result item
/// identity key pair, in insertion order.
#[derive(Debug)]
pub struct Recipes {
    rows: Vec<(UniqueName, UniqueName)>,
}

impl View for Recipes {
    type V = Seq<(Seq<char>, Seq<char>)>;

    closed spec fn view(&self) -> Seq<(Seq<char>, Seq<char>)> {
        self.rows@.map_values(|row: (UniqueName, UniqueName)| (row.0@, row.1@))
    }
}

impl Recipes {
    /// An empty index.
    pub fn new() -> (r: Self)
        ensures
            r@ == Seq::<(Seq<char>, Seq<char>)>::empty(),
    {
        let r = Recipes { rows: Vec::new() };
        proof {
            assert(r@ =~= Seq::<(Seq<char>, Seq<char>)>::empty());
        }
        r
    }

    /// What a recipe makes: the result key of the first row whose
    /// recipe key matches case-insensitively, when there is one.
    pub fn fetch_by_unique_name(&self, unique_name: UniqueName) -> (r: Option<UniqueName>)
        ensures
            match r {
                Option::Some(result) => lookup_fst_ci(self@, unique_name@) == Option::Some(
                    result@,
                ),
                Option::None => lookup_fst_ci(self@, unique_name@) == Option::<Seq<char>>::None,
            },
    {
        let n = self.rows.len();
        let mut i: usize = 0;
        proof {
            assert(self@.skip(0) =~= self@);
        }
        while i < n
            invariant
                n == self.rows.len(),
                i <= n,
                self@.len() == n,
                forall|j: int| 0 <= j < n ==> self@[j] == (self.rows@[j].0@, self.rows@[j].1@),
                lookup_fst_ci(self@, unique_name@) == lookup_fst_ci(
                    self@.skip(i as int),
                    unique_name@,
                ),
            decreases n - i,
        {
            if eq_ignore_case(self.rows[i].0.as_str(), unique_name.as_str()) {
                proof {
                    assert(self@.skip(i as int)[0] == self@[i as int]);
                }
                return Option::Some(self.rows[i].1.clone());
            }
            proof {
                assert(self@.skip(i as int)[0] == self@[i as int]);
                assert(self@.skip(i as int).drop_first() =~= self@.skip(i + 1));
            }
            i = i + 1;
        }
        proof {
            assert(self@.skip(i as int).len() == 0);
        }
        Option::None
    }

    /// Every recipe that produces a result item, in row order.
    pub fn fetch_by_result_type(&self, result_type: UniqueName) -> (r: Vec<UniqueName>)
        ensures
            r.deep_view() == matches_snd_exact(self@, result_type@),
    {
        let n = self.rows.len();
        let mut out: Vec<UniqueName> = Vec::new();
        let mut i: usize = 0;
        proof {
            assert(self@.skip(0) =~= self@);
            assert(out.deep_view() =~= Seq::<Seq<char>>::empty());
        }
        while i < n
            invariant
                n == self.rows.len(),
                i <= n,
                self@.len() == n,
                forall|j: int| 0 <= j < n ==> self@[j] == (self.rows@[j].0@, self.rows@[j].1@),
                matches_snd_exact(self@, result_type@) == out.deep_view() + matches_snd_exact(
                    self@.skip(i as int),
                    result_type@,
                ),
            decreases n - i,
        {
            proof {
                assert(self@.skip(i as int)[0] == self@[i as int]);
                assert(self@.skip(i as int).drop_first() =~= self@.skip(i + 1));
            }
            if str_eq(self.rows[i].1.as_str(), result_type.as_str()) {
                let ghost pre = out.deep_view();
                out.push(self.rows[i].0.clone());
                proof {
                    assert(out.deep_view() =~= pre.push(self@[i as int].0));
                    assert(out.deep_view() + matches_snd_exact(self@.skip(i + 1), result_type@)
                        =~= pre + matches_snd_exact(self@.skip(i as int), result_type@));
                }
            }
            i = i + 1;
        }
        proof {
            assert(matches_snd_exact(self@.skip(i as int), result_type@) =~= Seq::<
                Seq<char>,
            >::empty());
            assert(out.deep_view() =~= matches_snd_exact(self@, result_type@));
        }
        out
    }

    /// Appends one row.
    pub fn add(&mut self, unique_name: UniqueName, result_type: UniqueName)
        ensures
            final(self)@ == old(self)@.push((unique_name@, result_type@)),
    {
        let ghost un = unique_name@;
        let ghost rt = result_type@;
        self.rows.push((unique_name, result_type));
        proof {
            assert(self@ =~= old(self)@.push((un, rt)));
        }
    }
}

} // verus!
