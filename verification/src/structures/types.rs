//! Interned text handles: the stable identity key, the human-readable
//! display name, and the ingredient count.
use vstd::prelude::*;

verus! {

/// The stable, upstream-assigned identity key of an entity: a cheap
/// to clone, reference-counted text handle.  Equality is by content.
#[derive(Debug)]
pub struct UniqueName {
    text: std::rc::Rc<String>,
}

impl View for UniqueName {
    type V = Seq<char>;

    closed spec fn view(&self) -> Seq<char> {
        self.text@
    }
}

impl DeepView for UniqueName {
    type V = Seq<char>;

    open spec fn deep_view(&self) -> Seq<char> {
        self.view()
    }
}

impl UniqueName {
    /// The key's text.
    pub fn as_str(&self) -> (r: &str)
        ensures
            r@ == self@,
    {
        self.text.as_str()
    }
}

impl Clone for UniqueName {
    fn clone(&self) -> (r: Self)
        ensures
            r@ == self@,
    {
        UniqueName { text: self.text.clone() }
    }
}

impl PartialEq for UniqueName {
    fn eq(&self, other: &Self) -> (r: bool) {
        crate::text::str_eq(self.text.as_str(), other.text.as_str())
    }
}

impl vstd::std_specs::cmp::PartialEqSpecImpl for UniqueName {
    open spec fn obeys_eq_spec() -> bool {
        true
    }

    open spec fn eq_spec(&self, other: &Self) -> bool {
        self@ == other@
    }
}

impl UniqueName {
    /// Wraps owned text as an identity key.
    pub fn new(text: String) -> (r: Self)
        ensures
            r@ == text@,
    {
        UniqueName { text: std::rc::Rc::new(text) }
    }

    /// Wraps an interned handle as an identity key, sharing its
    /// storage.
    pub fn from_handle(text: std::rc::Rc<String>) -> (r: Self)
        ensures
            r@ == text@,
    {
        UniqueName { text }
    }
}

/// The human-readable, not necessarily unique display name of an
/// entity: a cheap to clone, reference-counted text handle.  Equality
/// is by content.
#[derive(Debug)]
pub struct CommonName {
    text: std::rc::Rc<String>,
}

impl View for CommonName {
    type V = Seq<char>;

    closed spec fn view(&self) -> Seq<char> {
        self.text@
    }
}

impl DeepView for CommonName {
    type V = Seq<char>;

    open spec fn deep_view(&self) -> Seq<char> {
        self.view()
    }
}

impl CommonName {
    /// The name's text.
    pub fn as_str(&self) -> (r: &str)
        ensures
            r@ == self@,
    {
        self.text.as_str()
    }
}

impl Clone for CommonName {
    fn clone(&self) -> (r: Self)
        ensures
            r@ == self@,
    {
        CommonName { text: self.text.clone() }
    }
}

impl PartialEq for CommonName {
    fn eq(&self, other: &Self) -> (r: bool) {
        crate::text::str_eq(self.text.as_str(), other.text.as_str())
    }
}

impl vstd::std_specs::cmp::PartialEqSpecImpl for CommonName {
    open spec fn obeys_eq_spec() -> bool {
        true
    }

    open spec fn eq_spec(&self, other: &Self) -> bool {
        self@ == other@
    }
}

impl CommonName {
    /// Wraps owned text as a display name.
    pub fn new(text: String) -> (r: Self)
        ensures
            r@ == text@,
    {
        CommonName { text: std::rc::Rc::new(text) }
    }

    /// Wraps an interned handle as a display name, sharing its storage.
    pub fn from_handle(text: std::rc::Rc<String>) -> (r: Self)
        ensures
            r@ == text@,
    {
        CommonName { text }
    }
}

/// How many units of an ingredient a recipe requires.
#[derive(Debug, Clone, Copy, PartialEq, Eq, Structural)]
pub struct Count(pub u32);

impl Count {
    /// The count as a plain number.
    pub fn to_u32(&self) -> (r: u32)
        ensures
            r == self.0,
    {
        self.0
    }
}

impl From<u32> for Count {
    fn from(i: u32) -> (r: Self) {
        Count(i)
    }
}

impl vstd::std_specs::convert::FromSpecImpl<u32> for Count {
    open spec fn obeys_from_spec() -> bool {
        true
    }

    open spec fn from_spec(i: u32) -> Self {
        Count(i)
    }
}

} // verus!
