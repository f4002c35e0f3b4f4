use vstd::prelude::*;

verus! {

/// A named country table of the spatial store; the library only carries
/// the name, the store itself is an external collaborator.
#[derive(Debug, Clone, PartialEq)]
pub struct Country {
    name: String,
}

impl Country {
    pub fn new(name: String) -> (r: Country)
        ensures
            r@ == name@,
    {
        Country { name }
    }

    /// The table's name.
    pub fn name(&self) -> (r: &String)
        ensures
            r@ == self@,
    {
        &self.name
    }
}

impl View for Country {
    type V = Seq<char>;

    closed spec fn view(&self) -> Seq<char> {
        self.name@
    }
}

} // verus!
