//! Names of variables, parameters and types.

use vstd::prelude::*;

verus! {

/// An owned textual name. Two identifiers are equal when their text is.
#[derive(Debug, Clone, Hash, Eq, PartialEq)]
pub struct Identifier(String);

impl View for Identifier {
    type V = Seq<char>;

    closed spec fn view(&self) -> Seq<char> {
        self.0@
    }
}

impl Identifier {
    /// The identifier spelled `name`.
    pub fn new(name: String) -> (identifier: Identifier)
        ensures
            identifier@ == name@,
    {
        Self(name)
    }

    /// The text of the identifier.
    pub fn name(&self) -> (name: &str)
        ensures
            name@ == self@,
    {
        self.0.as_str()
    }
}

} // verus!
