//! The state of a cell.

use vstd::prelude::*;

verus! {

/// A state in an automaton: a name, by which its rule is found, and a value.
pub struct State<T> {
    name: String,
    val: T,
}

impl<T> State<T> {
    /// The name of the state.
    pub closed spec fn spec_name(&self) -> Seq<char> {
        self.name@
    }

    /// The value of the state.
    pub closed spec fn spec_val(&self) -> T {
        self.val
    }

    /// Return a new, named state with a value
    pub fn new(name: &str, val: T) -> (state: State<T>)
        ensures
            state.spec_name() == name@,
            state.spec_val() == val,
    {
        State { name: name.to_owned(), val }
    }

    /// Get state value
    pub fn val(&self) -> (val: &T)
        ensures
            *val == self.spec_val(),
    {
        &self.val
    }

    /// Get state name
    pub fn name(&self) -> (name: &str)
        ensures
            name@ == self.spec_name(),
    {
        self.name.as_str()
    }

    /// Whether the state goes by the given name.
    pub fn is_named(&self, name: &String) -> (named: bool)
        ensures
            named == (self.spec_name() == name@),
    {
        self.name == *name
    }

    /// Whether two states go by one name, and so by one rule.
    pub fn same_name(&self, other: &State<T>) -> (same: bool)
        ensures
            same == (self.spec_name() == other.spec_name()),
    {
        self.name == other.name
    }
}

} // verus!
