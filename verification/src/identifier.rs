use vstd::prelude::*;

verus! {

/// A source-level name that instructions use to refer to a lexical binding.
///
/// An identifier is modelled by the characters of its name: two identifiers
/// denote the same binding exactly when their views are equal.
#[derive(Debug, PartialEq, Eq, Hash)]
pub struct Identifier(String);

impl View for Identifier {
    type V = Seq<char>;

    closed spec fn view(&self) -> Seq<char> {
        self.0@
    }
}

impl DeepView for Identifier {
    type V = Seq<char>;

    open spec fn deep_view(&self) -> Seq<char> {
        self@
    }
}

impl Identifier {
    /// The identifier spelled `name`.
    pub fn new(name: String) -> (identifier: Identifier)
        ensures
            identifier@ == name@,
    {
        Identifier(name)
    }

    /// Whether two identifiers spell the same name.
    pub fn same_name(&self, other: &Identifier) -> (same: bool)
        ensures
            same == (self@ == other@),
    {
        self.0 == other.0
    }
}

impl Clone for Identifier {
    fn clone(&self) -> (copy: Identifier)
        ensures
            copy@ == self@,
    {
        Identifier(self.0.clone())
    }
}

} // verus!
