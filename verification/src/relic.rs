//! Relic rewards: the drop-weight class of a reward and a named relic
//! paired with the rarity it drops a reward at.
use vstd::prelude::*;

verus! {

use crate::structures::types::CommonName;
use crate::text::lex_le;
use crate::text::lemma_lex_antisym;
use crate::text::lemma_lex_total;
use crate::text::lemma_lex_trans;
use crate::text::str_eq;

/// The drop-weight class of a relic reward.  Unknown input text is a
/// parse error, never a silent default.
#[derive(Debug, Clone, Copy, PartialEq, Eq, Structural)]
pub enum Rarity {
    Common,
    Uncommon,
    Rare,
}

/// The upstream text for each rarity.
pub open spec fn rarity_text(r: Rarity) -> Seq<char> {
    match r {
        Rarity::Common => "COMMON"@,
        Rarity::Uncommon => "UNCOMMON"@,
        Rarity::Rare => "RARE"@,
    }
}

/// Rarities ordered from most to least frequent.
pub open spec fn rarity_rank(r: Rarity) -> int {
    match r {
        Rarity::Common => 0,
        Rarity::Uncommon => 1,
        Rarity::Rare => 2,
    }
}

/// The text a rarity could not be parsed from.
#[derive(Debug)]
pub struct UnknownRarity {
    pub text: String,
}

impl Rarity {
    /// The upstream text of this rarity.
    pub fn as_str(&self) -> (r: &'static str)
        ensures
            r@ == rarity_text(*self),
    {
        match self {
            Rarity::Common => "COMMON",
            Rarity::Uncommon => "UNCOMMON",
            Rarity::Rare => "RARE",
        }
    }

    /// Parses a rarity from its upstream text; any other text is
    /// rejected as unknown.
    pub fn try_from(i: &str) -> (r: Result<Rarity, UnknownRarity>)
        ensures
            match r {
                Result::Ok(rarity) => i@ == rarity_text(rarity),
                Result::Err(e) => e.text@ == i@ && forall|rarity: Rarity|
                    i@ != rarity_text(rarity),
            },
    {
        if str_eq(i, "COMMON") {
            Result::Ok(Rarity::Common)
        } else if str_eq(i, "UNCOMMON") {
            Result::Ok(Rarity::Uncommon)
        } else if str_eq(i, "RARE") {
            Result::Ok(Rarity::Rare)
        } else {
            assert(forall|rarity: Rarity| i@ != rarity_text(rarity));
            Result::Err(UnknownRarity { text: i.to_owned() })
        }
    }

    /// This rarity's position in the frequency order.
    pub fn rank(&self) -> (r: u8)
        ensures
            r as int == rarity_rank(*self),
    {
        match self {
            Rarity::Common => 0,
            Rarity::Uncommon => 1,
            Rarity::Rare => 2,
        }
    }
}

/// A relic that can drop a reward, named by its display name, together
/// with the rarity the reward drops at.
#[derive(Debug)]
pub struct Relic {
    name: CommonName,
    pub rarity: Rarity,
}

impl View for Relic {
    type V = (Seq<char>, Rarity);

    closed spec fn view(&self) -> (Seq<char>, Rarity) {
        (self.name@, self.rarity)
    }
}

impl DeepView for Relic {
    type V = (Seq<char>, Rarity);

    open spec fn deep_view(&self) -> (Seq<char>, Rarity) {
        self.view()
    }
}

impl Relic {
    /// Pairs a relic's display name with a reward rarity.
    pub fn new(name: CommonName, rarity: Rarity) -> (r: Self)
        ensures
            r@ == (name@, rarity),
    {
        Relic { name, rarity }
    }

    /// The relic's display name.
    pub fn name(&self) -> (r: &str)
        ensures
            r@ == self@.0,
    {
        self.name.as_str()
    }
}

impl Clone for Relic {
    fn clone(&self) -> (r: Self)
        ensures
            r@ == self@,
    {
        Relic { name: self.name.clone(), rarity: self.rarity }
    }
}

/// Relics ordered by display name, then by rarity.
pub open spec fn relic_le(a: (Seq<char>, Rarity), b: (Seq<char>, Rarity)) -> bool {
    if a.0 == b.0 {
        rarity_rank(a.1) <= rarity_rank(b.1)
    } else {
        lex_le(a.0, b.0)
    }
}

/// The strict part of the relic order.
pub open spec fn relic_lt(a: (Seq<char>, Rarity), b: (Seq<char>, Rarity)) -> bool {
    relic_le(a, b) && a != b
}

/// The relic order relates every pair.
pub proof fn lemma_relic_total(a: (Seq<char>, Rarity), b: (Seq<char>, Rarity))
    ensures
        relic_le(a, b) || relic_le(b, a),
{
    if a.0 == b.0 {
    } else {
        lemma_lex_total(a.0, b.0);
    }
}

/// Two relics below one another are equal.
pub proof fn lemma_relic_antisym(a: (Seq<char>, Rarity), b: (Seq<char>, Rarity))
    requires
        relic_le(a, b),
        relic_le(b, a),
    ensures
        a == b,
{
    if a.0 == b.0 {
        assert(rarity_rank(a.1) == rarity_rank(b.1));
        assert(a.1 == b.1);
    } else {
        lemma_lex_antisym(a.0, b.0);
    }
}

/// The relic order is transitive.
pub proof fn lemma_relic_trans(a: (Seq<char>, Rarity), b: (Seq<char>, Rarity), c: (Seq<char>, Rarity))
    requires
        relic_le(a, b),
        relic_le(b, c),
    ensures
        relic_le(a, c),
{
    if a.0 == b.0 && b.0 == c.0 {
    } else if a.0 == b.0 {
    } else if b.0 == c.0 {
    } else {
        lemma_lex_trans(a.0, b.0, c.0);
        if a.0 == c.0 {
            lemma_lex_antisym(a.0, b.0);
        }
    }
}

/// Decides the relic order on two relics.
pub fn relic_le_exec(a: &Relic, b: &Relic) -> (r: bool)
    ensures
        r == relic_le(a@, b@),
{
    if str_eq(a.name.as_str(), b.name.as_str()) {
        a.rarity.rank() <= b.rarity.rank()
    } else {
        crate::text::str_le(a.name.as_str(), b.name.as_str())
    }
}

/// Decides equality of two relics.
pub fn relic_eq_exec(a: &Relic, b: &Relic) -> (r: bool)
    ensures
        r == (a@ == b@),
{
    str_eq(a.name.as_str(), b.name.as_str()) && a.rarity == b.rarity
}

/// The strict relic order is transitive.
pub proof fn lemma_relic_lt_trans(a: (Seq<char>, Rarity), b: (Seq<char>, Rarity), c: (Seq<char>, Rarity))
    requires
        relic_lt(a, b),
        relic_lt(b, c),
    ensures
        relic_lt(a, c),
{
    lemma_relic_trans(a, b, c);
    if a == c {
        lemma_relic_antisym(a, b);
    }
}

/// A relic list in strictly ascending order: sorted with no duplicates.
pub open spec fn relic_sorted_dedup(s: Seq<(Seq<char>, Rarity)>) -> bool {
    forall|p: int, q: int| 0 <= p < q < s.len() ==> relic_lt(#[trigger] s[p], #[trigger] s[q])
}

/// The position a relic belongs at in a strictly ascending list: the
/// first entry that does not come strictly before it.
fn find_relic_pos(out: &Vec<Relic>, x: &Relic) -> (pos: usize)
    ensures
        pos <= out.len(),
        forall|p: int| 0 <= p < pos ==> relic_lt((#[trigger] out@[p])@, x@),
        pos < out.len() ==> !relic_lt(out@[pos as int]@, x@),
{
    let n = out.len();
    let mut pos: usize = 0;
    while pos < n
        invariant
            n == out.len(),
            pos <= n,
            forall|p: int| 0 <= p < pos ==> relic_lt((#[trigger] out@[p])@, x@),
        decreases n - pos,
    {
        let lt = relic_le_exec(&out[pos], x) && !relic_eq_exec(&out[pos], x);
        if !lt {
            return pos;
        }
        pos = pos + 1;
    }
    pos
}

/// Orders a relic list by display name then rarity and removes
/// duplicates: the result is strictly ascending and holds exactly the
/// relics the input held.
pub fn sort_dedup_relics(v: Vec<Relic>) -> (r: Vec<Relic>)
    ensures
        relic_sorted_dedup(r.deep_view()),
        forall|x: (Seq<char>, Rarity)|
            r.deep_view().contains(x) <==> v.deep_view().contains(x),
{
    broadcast use vstd::seq_lib::group_to_multiset_ensures;

    let n = v.len();
    let mut out: Vec<Relic> = Vec::new();
    let mut i: usize = 0;
    proof {
        assert(out.deep_view() =~= Seq::<(Seq<char>, Rarity)>::empty());
        assert(v.deep_view().take(0) =~= Seq::<(Seq<char>, Rarity)>::empty());
    }
    while i < n
        invariant
            n == v.len(),
            i <= n,
            v.deep_view().len() == n,
            forall|j: int| 0 <= j < n ==> v.deep_view()[j] == (#[trigger] v@[j])@,
            forall|j: int| 0 <= j < out.deep_view().len() ==> out.deep_view()[j] == (
            #[trigger] out@[j])@,
            relic_sorted_dedup(out.deep_view()),
            forall|x: (Seq<char>, Rarity)|
                out.deep_view().contains(x) <==> v.deep_view().take(i as int).contains(x),
        decreases n - i,
    {
        let ghost outv = out.deep_view();
        let ghost pre = v.deep_view().take(i as int);
        let x = v[i].clone();
        let ghost xv = x@;
        proof {
            assert(v.deep_view()[i as int] == xv);
            assert(v.deep_view().take(i + 1) =~= pre.push(xv));
            assert(forall|y: (Seq<char>, Rarity)|
                pre.push(xv).contains(y) <==> pre.contains(y) || y == xv) by {
                assert(forall|y: (Seq<char>, Rarity)| #[trigger]
                    pre.push(xv).contains(y) ==> pre.contains(y) || y == xv);
                assert(pre.push(xv)[pre.len() as int] == xv);
                assert(pre.push(xv).contains(xv));
                assert(forall|y: (Seq<char>, Rarity)| #[trigger] pre.contains(y)
                    ==> pre.push(xv).contains(y));
            }
        }
        let pos = find_relic_pos(&out, &x);
        let skip_dup = pos < out.len() && relic_eq_exec(&out[pos], &x);
        if skip_dup {
            proof {
                assert(out.deep_view()[pos as int] == xv);
                assert(out.deep_view().contains(xv));
            }
        } else {
            proof {
                if (pos as int) < outv.len() {
                    assert(!relic_lt(outv[pos as int], xv));
                    assert(outv[pos as int] != xv);
                    lemma_relic_total(outv[pos as int], xv);
                    assert(relic_lt(xv, outv[pos as int]));
                }
            }
            out.insert(pos, x);
            proof {
                let outv2 = out.deep_view();
                assert(outv2 =~= outv.insert(pos as int, xv));
                crate::structures::lemma_insert_to_multiset(outv, xv, pos as int);
                outv.to_multiset_ensures();
                outv2.to_multiset_ensures();
                assert(outv2.to_multiset() == outv.to_multiset().insert(xv));
                assert forall|y: (Seq<char>, Rarity)|
                    #[trigger] outv2.contains(y) <==> outv.contains(y) || y == xv by {
                    vstd::multiset::lemma_insert_containment(outv.to_multiset(), xv, y);
                }
                assert forall|p: int, q: int|
                    0 <= p < q < outv2.len() implies relic_lt(
                    #[trigger] outv2[p],
                    #[trigger] outv2[q],
                ) by {
                    if q < pos {
                        assert(outv2[p] == outv[p] && outv2[q] == outv[q]);
                    } else if p < pos && q == pos {
                        assert(outv2[p] == outv[p] && outv2[q] == xv);
                    } else if p < pos && q > pos {
                        assert(outv2[p] == outv[p] && outv2[q] == outv[q - 1]);
                        assert(relic_lt(outv[p], outv[q - 1]));
                    } else if p == pos {
                        assert(outv2[p] == xv && outv2[q] == outv[q - 1]);
                        if q - 1 > pos {
                            assert(relic_lt(outv[pos as int], outv[q - 1]));
                            lemma_relic_lt_trans(xv, outv[pos as int], outv[q - 1]);
                        }
                    } else {
                        assert(outv2[p] == outv[p - 1] && outv2[q] == outv[q - 1]);
                        assert(relic_lt(outv[p - 1], outv[q - 1]));
                    }
                }
            }
        }
        i = i + 1;
    }
    proof {
        assert(v.deep_view().take(n as int) =~= v.deep_view());
    }
    out
}

} // verus!

