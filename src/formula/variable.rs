//! Propositional variable.

use vstd::prelude::*;

verus! {

/// A propositional variable, identified by its name.
#[derive(Debug, Eq, Hash)]
pub struct Variable {
    name: String,
}

impl View for Variable {
    type V = Seq<char>;

    /// A variable is modelled by its name.
    closed spec fn view(&self) -> Seq<char> {
        self.name@
    }
}

impl Variable {
    /// Construct a new propositional variable with the given `name`.
    pub fn new(name: &str) -> (r: Variable)
        ensures
            r@ == name@,
    {
        Variable { name: name.to_owned() }
    }

    /// The name of the propositional variable.
    pub fn name(&self) -> (r: &str)
        ensures
            r@ == self@,
    {
        self.name.as_str()
    }
}

impl Clone for Variable {
    fn clone(&self) -> (r: Variable)
        ensures
            r@ == self@,
    {
        Variable { name: self.name.clone() }
    }
}

impl PartialEq for Variable {
    fn eq(&self, other: &Variable) -> (r: bool) {
        self.name == other.name
    }
}

impl vstd::std_specs::cmp::PartialEqSpecImpl for Variable {
    open spec fn obeys_eq_spec() -> bool {
        true
    }

    open spec fn eq_spec(&self, other: &Variable) -> bool {
        self@ == other@
    }
}

} // verus!
