//! The Requires index: the ordered ingredient list of each recipe.
//! Fetching a recipe's requirements orders them ascending by count,
//! then by ingredient identity key, so the smaller, rarer requirements
//! surface first.
use vstd::prelude::*;

verus! {

use crate::structures::lemma_insert_to_multiset;
use crate::structures::types::Count;
use crate::structures::types::UniqueName;
use crate::text::lemma_lex_total;
use crate::text::lemma_lex_trans;
use crate::text::lex_le;
use crate::text::str_eq;
use crate::text::str_le;

/// One row per recipe, ingredient, and count, in insertion order.
#[derive(Debug)]
pub struct Requires {
    rows: Vec<(UniqueName, UniqueName, Count)>,
}

/// The ingredient and count of every row whose recipe key equals the
/// key exactly, in row order.
pub open spec fn reqs_for(rows: Seq<(Seq<char>, Seq<char>, u32)>, key: Seq<char>) -> Seq<
    (Seq<char>, u32),
>
    decreases rows.len(),
{
    if rows.len() == 0 {
        Seq::empty()
    } else if rows[0].0 == key {
        seq![(rows[0].1, rows[0].2)] + reqs_for(rows.drop_first(), key)
    } else {
        reqs_for(rows.drop_first(), key)
    }
}

/// The count of the first row for a recipe and ingredient pair, in
/// row order.
pub open spec fn first_count_for(
    rows: Seq<(Seq<char>, Seq<char>, u32)>,
    recipe: Seq<char>,
    item: Seq<char>,
) -> Option<u32>
    decreases rows.len(),
{
    if rows.len() == 0 {
        Option::None
    } else if rows[0].0 == recipe && rows[0].1 == item {
        Option::Some(rows[0].2)
    } else {
        first_count_for(rows.drop_first(), recipe, item)
    }
}

/// Requirements ordered ascending by count, then by ingredient
/// identity key.
pub open spec fn req_le(a: (Seq<char>, u32), b: (Seq<char>, u32)) -> bool {
    a.1 < b.1 || (a.1 == b.1 && lex_le(a.0, b.0))
}

/// A requirement list in ascending order.
pub open spec fn req_sorted(s: Seq<(Seq<char>, u32)>) -> bool {
    forall|p: int, q: int| 0 <= p < q < s.len() ==> req_le(#[trigger] s[p], #[trigger] s[q])
}

/// The requirement order relates every pair.
pub proof fn lemma_req_total(a: (Seq<char>, u32), b: (Seq<char>, u32))
    ensures
        req_le(a, b) || req_le(b, a),
{
    if a.1 == b.1 {
        lemma_lex_total(a.0, b.0);
    }
}

/// The requirement order is transitive.
pub proof fn lemma_req_trans(a: (Seq<char>, u32), b: (Seq<char>, u32), c: (Seq<char>, u32))
    requires
        req_le(a, b),
        req_le(b, c),
    ensures
        req_le(a, c),
{
    if a.1 == b.1 && b.1 == c.1 {
        lemma_lex_trans(a.0, b.0, c.0);
    }
}

/// The view of a requirement pair.
pub open spec fn req_pair_view(p: (UniqueName, Count)) -> (Seq<char>, u32) {
    (p.0@, p.1.0)
}

impl View for Requires {
    type V = Seq<(Seq<char>, Seq<char>, u32)>;

    closed spec fn view(&self) -> Seq<(Seq<char>, Seq<char>, u32)> {
        self.rows@.map_values(|row: (UniqueName, UniqueName, Count)| (row.0@, row.1@, row.2.0))
    }
}

impl Requires {
    /// An empty index.
    pub fn new() -> (r: Self)
        ensures
            r@ == Seq::<(Seq<char>, Seq<char>, u32)>::empty(),
    {
        let r = Requires { rows: Vec::new() };
        proof {
            assert(r@ =~= Seq::<(Seq<char>, Seq<char>, u32)>::empty());
        }
        r
    }

    /// A recipe's ingredient list: exactly the rows recorded for the
    /// recipe key, ordered ascending by count, then by ingredient
    /// identity key.
    pub fn fetch_by_recipe_unique_name(&self, recipe_unique_name: UniqueName) -> (r: Vec<
        (UniqueName, Count),
    >)
        ensures
            r@.map_values(|p: (UniqueName, Count)| req_pair_view(p)).to_multiset() == reqs_for(
                self@,
                recipe_unique_name@,
            ).to_multiset(),
            req_sorted(r@.map_values(|p: (UniqueName, Count)| req_pair_view(p))),
    {
        broadcast use vstd::seq_lib::group_to_multiset_ensures;

        let n = self.rows.len();
        let mut out: Vec<(UniqueName, Count)> = Vec::new();
        let ghost mut processed: Seq<(Seq<char>, u32)> = Seq::empty();
        let mut i: usize = 0;
        proof {
            assert(self@.skip(0) =~= self@);
            assert(out@.map_values(|p: (UniqueName, Count)| req_pair_view(p)) =~= Seq::<
                (Seq<char>, u32),
            >::empty());
        }
        while i < n
            invariant
                n == self.rows.len(),
                i <= n,
                self@.len() == n,
                forall|j: int|
                    0 <= j < n ==> self@[j] == (
                        self.rows@[j].0@,
                        self.rows@[j].1@,
                        self.rows@[j].2.0,
                    ),
                reqs_for(self@, recipe_unique_name@) == processed + reqs_for(
                    self@.skip(i as int),
                    recipe_unique_name@,
                ),
                out@.map_values(|p: (UniqueName, Count)| req_pair_view(p)).to_multiset()
                    == processed.to_multiset(),
                req_sorted(out@.map_values(|p: (UniqueName, Count)| req_pair_view(p))),
            decreases n - i,
        {
            proof {
                assert(self@.skip(i as int)[0] == self@[i as int]);
                assert(self@.skip(i as int).drop_first() =~= self@.skip(i + 1));
            }
            if str_eq(self.rows[i].0.as_str(), recipe_unique_name.as_str()) {
                let item = self.rows[i].1.clone();
                let count = self.rows[i].2;
                let ghost x = (item@, count.0);
                let ghost outv = out@.map_values(|p: (UniqueName, Count)| req_pair_view(p));
                let ghost before = processed;

                let pos = find_insert_pos(&out, &item, count);
                proof {
                    assert(forall|p: int| 0 <= p < pos ==> req_le(#[trigger] outv[p], x)) by {
                        assert(forall|p: int|
                            0 <= p < outv.len() ==> #[trigger] outv[p] == req_pair_view(out@[p]));
                    }
                    assert(pos < outv.len() ==> !req_le(outv[pos as int], x)) by {
                        if (pos as int) < outv.len() {
                            assert(outv[pos as int] == req_pair_view(out@[pos as int]));
                        }
                    }
                }
                out.insert(pos, (item, count));
                proof {
                    let outv2 = out@.map_values(|p: (UniqueName, Count)| req_pair_view(p));
                    assert(outv2 =~= outv.insert(pos as int, x));
                    lemma_insert_to_multiset(outv, x, pos as int);
                    processed = before.push(x);
                    before.to_multiset_ensures();
                    assert(before.push(x).to_multiset() =~= before.to_multiset().insert(x));
                    assert(processed.to_multiset() == outv2.to_multiset());
                    assert(reqs_for(self@, recipe_unique_name@) =~= processed + reqs_for(
                        self@.skip(i + 1),
                        recipe_unique_name@,
                    ));
                    assert forall|p: int, q: int|
                        0 <= p < q < outv2.len() implies req_le(
                        #[trigger] outv2[p],
                        #[trigger] outv2[q],
                    ) by {
                        if q < pos {
                            assert(outv2[p] == outv[p] && outv2[q] == outv[q]);
                        } else if p < pos && q == pos {
                            assert(outv2[p] == outv[p] && outv2[q] == x);
                        } else if p < pos && q > pos {
                            assert(outv2[p] == outv[p] && outv2[q] == outv[q - 1]);
                            assert(req_le(outv[p], outv[q - 1]));
                        } else if p == pos {
                            assert(outv2[p] == x && outv2[q] == outv[q - 1]);
                            lemma_req_total(outv[pos as int], x);
                            assert(req_le(x, outv[pos as int]));
                            if q - 1 > pos {
                                assert(req_le(outv[pos as int], outv[q - 1]));
                                lemma_req_trans(x, outv[pos as int], outv[q - 1]);
                            }
                        } else {
                            assert(outv2[p] == outv[p - 1] && outv2[q] == outv[q - 1]);
                            assert(req_le(outv[p - 1], outv[q - 1]));
                        }
                    }
                }
            }
            i = i + 1;
        }
        proof {
            assert(reqs_for(self@.skip(i as int), recipe_unique_name@) =~= Seq::<
                (Seq<char>, u32),
            >::empty());
            assert(processed =~= reqs_for(self@, recipe_unique_name@));
        }
        out
    }

    /// How many units of one ingredient a recipe requires: the count of
    /// the first row for the pair, in row order, when there is one.
    pub fn how_many_needed(&self, recipe_unique_name: UniqueName, item_type: UniqueName) -> (r:
        Option<Count>)
        ensures
            match r {
                Option::Some(c) => first_count_for(self@, recipe_unique_name@, item_type@)
                    == Option::Some(c.0),
                Option::None => first_count_for(self@, recipe_unique_name@, item_type@)
                    == Option::<u32>::None,
            },
    {
        let n = self.rows.len();
        let mut i: usize = 0;
        proof {
            assert(self@.skip(0) =~= self@);
        }
        while i < n
            invariant
                n == self.rows.len(),
                i <= n,
                self@.len() == n,
                forall|j: int|
                    0 <= j < n ==> self@[j] == (
                        self.rows@[j].0@,
                        self.rows@[j].1@,
                        self.rows@[j].2.0,
                    ),
                first_count_for(self@, recipe_unique_name@, item_type@) == first_count_for(
                    self@.skip(i as int),
                    recipe_unique_name@,
                    item_type@,
                ),
            decreases n - i,
        {
            proof {
                assert(self@.skip(i as int)[0] == self@[i as int]);
                assert(self@.skip(i as int).drop_first() =~= self@.skip(i + 1));
            }
            if str_eq(self.rows[i].0.as_str(), recipe_unique_name.as_str()) && str_eq(
                self.rows[i].1.as_str(),
                item_type.as_str(),
            ) {
                return Option::Some(self.rows[i].2);
            }
            i = i + 1;
        }
        proof {
            assert(self@.skip(i as int).len() == 0);
        }
        Option::None
    }

    /// Appends one row.
    pub fn add(&mut self, recipe_unique_name: UniqueName, item_type: UniqueName, count: Count)
        ensures
            final(self)@ == old(self)@.push((recipe_unique_name@, item_type@, count.0)),
    {
        let ghost rk = recipe_unique_name@;
        let ghost it = item_type@;
        self.rows.push((recipe_unique_name, item_type, count));
        proof {
            assert(self@ =~= old(self)@.push((rk, it, count.0)));
        }
    }
}

/// The position a requirement belongs at in an ascending list: the
/// first entry that does not come before it.
fn find_insert_pos(out: &Vec<(UniqueName, Count)>, item: &UniqueName, count: Count) -> (pos: usize)
    ensures
        pos <= out.len(),
        forall|p: int|
            0 <= p < pos ==> req_le(req_pair_view(#[trigger] out@[p]), (item@, count.0)),
        pos < out.len() ==> !req_le(req_pair_view(out@[pos as int]), (item@, count.0)),
{
    let ghost outv = out@.map_values(|p2: (UniqueName, Count)| req_pair_view(p2));
    let ghost x = (item@, count.0);
    let n = out.len();
    let mut pos: usize = 0;
    while pos < n
        invariant
            n == out.len(),
            x == (item@, count.0),
            outv == out@.map_values(|p2: (UniqueName, Count)| req_pair_view(p2)),
            outv.len() == n,
            pos <= n,
            forall|p: int| 0 <= p < pos ==> req_le(#[trigger] outv[p], x),
        decreases n - pos,
    {
        proof {
            assert(outv[pos as int] == req_pair_view(out@[pos as int]));
        }
        let row = &out[pos];
        assert(*row == out@[pos as int]);
        let c_lt = row.1.0 < count.0;
        assert(c_lt == (out@[pos as int].1.0 < count.0));
        let c_eq = row.1.0 == count.0;
        assert(c_eq == (out@[pos as int].1.0 == count.0));
        let n_le = str_le(row.0.as_str(), item.as_str());
        assert(n_le == lex_le(out@[pos as int].0@, item@));
        let goes_before = c_lt || (c_eq && n_le);
        if !goes_before {
            proof {
                assert(!c_lt && !(c_eq && n_le));
                assert(outv[pos as int] == (out@[pos as int].0@, out@[pos as int].1.0));
                assert(!(outv[pos as int].1 < x.1));
                assert(outv[pos as int].1 == x.1 ==> !lex_le(outv[pos as int].0, x.0));
                assert(!req_le(outv[pos as int], x));
                assert forall|p: int| 0 <= p < pos implies req_le(
                    req_pair_view(#[trigger] out@[p]),
                    x,
                ) by {
                    assert(outv[p] == req_pair_view(out@[p]));
                    assert(req_le(outv[p], x));
                }
            }
            return pos;
        }
        assert(req_le(outv[pos as int], x));
        pos = pos + 1;
    }
    proof {
        assert forall|p: int| 0 <= p < pos implies req_le(req_pair_view(#[trigger] out@[p]), x) by {
            assert(outv[p] == req_pair_view(out@[p]));
            assert(req_le(outv[p], x));
        }
    }
    pos
}

} // verus!

