//! De-duplication of immutable text values: equal content is stored at
//! most once, and interning hands back a handle with that content.
use vstd::prelude::*;

verus! {

/// What the table holds after interning one value: unchanged when the
/// content is already present, extended by it otherwise.
pub open spec fn intern_post(table: Seq<Seq<char>>, k: Seq<char>) -> Seq<Seq<char>> {
    if table.contains(k) {
        table
    } else {
        table.push(k)
    }
}

/// An append-only table of distinct text values, handed out as shared,
/// reference-counted handles.
pub struct Interner {
    table: Vec<std::rc::Rc<String>>,
}

impl View for Interner {
    type V = Seq<Seq<char>>;

    closed spec fn view(&self) -> Seq<Seq<char>> {
        self.table.deep_view()
    }
}

impl Interner {
    /// An empty table.
    pub fn new() -> (r: Self)
        ensures
            r@ == Seq::<Seq<char>>::empty(),
    {
        let r = Interner { table: Vec::new() };
        proof {
            assert(r@ =~= Seq::<Seq<char>>::empty());
        }
        r
    }

    /// How many distinct values the table holds.
    pub fn len(&self) -> (r: usize)
        ensures
            r == self@.len(),
    {
        self.table.len()
    }

    /// Interns one text value: the handle shares the stored text, which
    /// carries the given content, and the table grows only when that
    /// content was absent.
    pub fn intern(&mut self, k: String) -> (r: std::rc::Rc<String>)
        ensures
            r@ == k@,
            final(self)@ == intern_post(old(self)@, k@),
            final(self)@.contains(k@),
    {
        let n = self.table.len();
        let mut i: usize = 0;
        while i < n
            invariant
                n == self.table.len(),
                i <= n,
                self@.len() == n,
                forall|j: int| 0 <= j < n ==> self@[j] == self.table@[j]@,
                forall|j: int| 0 <= j < i ==> self@[j] != k@,
            decreases n - i,
        {
            if crate::text::str_eq(self.table[i].as_str(), k.as_str()) {
                let r = self.table[i].clone();
                proof {
                    assert(self@[i as int] == k@);
                    assert(self@.contains(k@));
                }
                return r;
            }
            i = i + 1;
        }
        proof {
            assert(forall|j: int| 0 <= j < self@.len() ==> self@[j] != k@);
            assert(!self@.contains(k@));
        }
        let r = std::rc::Rc::new(k);
        let stored = r.clone();
        self.table.push(stored);
        proof {
            assert(self@ =~= old(self)@.push(r@));
            assert(self@[self@.len() - 1] == r@);
            assert(self@.contains(r@));
        }
        r
    }
}

/// Follows interning idempotence: interning equal content twice hands
/// back equal handles, and the second call leaves the table exactly as
/// the first left it, so the content's storage is allocated at most once.
pub proof fn lemma_intern_idempotent(table: Seq<Seq<char>>, k: Seq<char>)
    ensures
        intern_post(intern_post(table, k), k) == intern_post(table, k),
{
    if !table.contains(k) {
        assert(table.push(k)[table.len() as int] == k);
        assert(table.push(k).contains(k));
    }
}

} // verus!
