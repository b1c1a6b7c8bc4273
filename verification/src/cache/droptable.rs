//! The active-relic list: which relic names the scraped drop table
//! currently offers.
use vstd::prelude::*;

verus! {

use crate::text::has_prefix;
use crate::text::has_suffix;
use crate::text::starts_with_str;
use crate::text::strip_suffix_str;

/// Whether a table cell names a relic: it starts with one of the four
/// relic era prefixes.
pub open spec fn is_relic_name(s: Seq<char>) -> bool {
    has_prefix(s, "Lith"@) || has_prefix(s, "Meso"@) || has_prefix(s, "Neo"@) || has_prefix(
        s,
        "Axi"@,
    )
}

/// A relic name with a trailing refinement marker removed.
pub open spec fn strip_radiant(s: Seq<char>) -> Seq<char> {
    if has_suffix(s, " (Radiant)"@) {
        s.take(s.len() - " (Radiant)"@.len())
    } else {
        s
    }
}

/// The relic names among a list of table cells, each with its trailing
/// refinement marker removed, in cell order.
pub open spec fn active_relics_of(cells: Seq<Seq<char>>) -> Seq<Seq<char>>
    decreases cells.len(),
{
    if cells.len() == 0 {
        Seq::empty()
    } else if is_relic_name(cells[0]) {
        seq![strip_radiant(cells[0])] + active_relics_of(cells.drop_first())
    } else {
        active_relics_of(cells.drop_first())
    }
}

/// Decides whether a table cell names a relic.
pub fn is_relic(item: &str) -> (r: bool)
    ensures
        r == is_relic_name(item@),
{
    starts_with_str(item, "Lith") || starts_with_str(item, "Meso") || starts_with_str(item, "Neo")
        || starts_with_str(item, "Axi")
}

/// Extracts the currently farmable relic names from the drop table's
/// cell texts: the cells naming a relic, each with a trailing
/// refinement marker removed.
pub fn active_relics(cells: &Vec<String>) -> (r: Vec<String>)
    ensures
        r.deep_view() == active_relics_of(cells.deep_view()),
{
    let n = cells.len();
    let ghost cv = cells.deep_view();
    let mut out: Vec<String> = Vec::new();
    let mut i: usize = 0;
    proof {
        assert(cv.skip(0) =~= cv);
        assert(out.deep_view() =~= Seq::<Seq<char>>::empty());
    }
    while i < n
        invariant
            n == cells.len(),
            i <= n,
            cv == cells.deep_view(),
            cv.len() == n,
            forall|j: int| 0 <= j < n ==> cv[j] == (#[trigger] cells@[j])@,
            active_relics_of(cv) == out.deep_view() + active_relics_of(cv.skip(i as int)),
        decreases n - i,
    {
        proof {
            assert(cv.skip(i as int)[0] == cv[i as int]);
            assert(cv.skip(i as int).drop_first() =~= cv.skip(i + 1));
        }
        if is_relic(cells[i].as_str()) {
            let ghost pre = out.deep_view();
            out.push(strip_suffix_str(cells[i].as_str(), " (Radiant)"));
            proof {
                assert(out.deep_view() =~= pre.push(strip_radiant(cv[i as int])));
                assert(out.deep_view() + active_relics_of(cv.skip(i + 1)) =~= pre
                    + active_relics_of(cv.skip(i as int)));
            }
        }
        i = i + 1;
    }
    proof {
        assert(active_relics_of(cv.skip(i as int)) =~= Seq::<Seq<char>>::empty());
        assert(out.deep_view() =~= active_relics_of(cv));
    }
    out
}

} // verus!
