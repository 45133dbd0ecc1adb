//! What a parser of automaton descriptions hands over: the name, the
//! neighbourhoods to support, and the descriptions of states and
//! transitions as text.

use crate::grid::neighbourhood::NType;
use vstd::prelude::*;
use vstd::std_specs::convert::FromSpecImpl;

verus! {

/// The description of an automaton as a parser hands it over.
pub struct ParsedCA<'a> {
    name: Option<&'a str>,
    neighbourhoods: Vec<NType>,
    states: Option<&'a str>,
    string: Option<String>,
    transitions: Option<&'a str>,
}

impl<'a> ParsedCA<'a> {
    /// The name of the automaton.
    pub closed spec fn spec_name(&self) -> Option<Seq<char>> {
        match self.name {
            Some(name) => Some(name@),
            None => None,
        }
    }

    /// The neighbourhoods to support.
    pub closed spec fn spec_neighbourhoods(&self) -> Seq<NType> {
        self.neighbourhoods@
    }

    /// The description of the states.
    pub closed spec fn spec_states(&self) -> Option<Seq<char>> {
        match self.states {
            Some(states) => Some(states@),
            None => None,
        }
    }

    /// The text that was parsed.
    pub closed spec fn spec_string(&self) -> Option<Seq<char>> {
        match self.string {
            Some(string) => Some(string@),
            None => None,
        }
    }

    /// The description of the transitions.
    pub closed spec fn spec_transitions(&self) -> Option<Seq<char>> {
        match self.transitions {
            Some(transitions) => Some(transitions@),
            None => None,
        }
    }

    /// A description that holds nothing yet.
    pub fn new() -> (parsed: Self)
        ensures
            parsed.spec_name() is None,
            parsed.spec_neighbourhoods() == Seq::<NType>::empty(),
            parsed.spec_states() is None,
            parsed.spec_string() is None,
            parsed.spec_transitions() is None,
    {
        Self { string: None, name: None, neighbourhoods: Vec::new(), states: None, transitions: None }
    }

    /// The name of the automaton.
    pub fn name(&self) -> (name: Option<&str>)
        ensures
            name is Some == self.spec_name() is Some,
            name is Some ==> name->0@ == self.spec_name()->0,
    {
        self.name
    }

    /// The neighbourhoods to support.
    pub fn neighbourhoods(&self) -> (neighbourhoods: &[NType])
        ensures
            neighbourhoods@ == self.spec_neighbourhoods(),
    {
        self.neighbourhoods.as_slice()
    }

    /// The description of the states.
    pub fn states(&self) -> (states: Option<&str>)
        ensures
            states is Some == self.spec_states() is Some,
            states is Some ==> states->0@ == self.spec_states()->0,
    {
        self.states
    }

    /// The text that was parsed.
    pub fn string(&self) -> (string: Option<&String>)
        ensures
            string is Some == self.spec_string() is Some,
            string is Some ==> string->0@ == self.spec_string()->0,
    {
        self.string.as_ref()
    }

    /// The description of the transitions.
    pub fn transitions(&self) -> (transitions: Option<&str>)
        ensures
            transitions is Some == self.spec_transitions() is Some,
            transitions is Some ==> transitions->0@ == self.spec_transitions()->0,
    {
        self.transitions
    }

    /// Sets the name of the automaton, and nothing else.
    pub fn set_name(&mut self, name: Option<&'a str>)
        ensures
            final(self).spec_name() == match name {
                Some(name) => Some(name@),
                None => None,
            },
            final(self).spec_neighbourhoods() == old(self).spec_neighbourhoods(),
            final(self).spec_states() == old(self).spec_states(),
            final(self).spec_string() == old(self).spec_string(),
            final(self).spec_transitions() == old(self).spec_transitions(),
    {
        self.name = name;
    }

    /// Sets the neighbourhoods to support, and nothing else.
    pub fn set_neighbourhoods(&mut self, neighbourhoods: Vec<NType>)
        ensures
            final(self).spec_neighbourhoods() == neighbourhoods@,
            final(self).spec_name() == old(self).spec_name(),
            final(self).spec_states() == old(self).spec_states(),
            final(self).spec_string() == old(self).spec_string(),
            final(self).spec_transitions() == old(self).spec_transitions(),
    {
        self.neighbourhoods = neighbourhoods;
    }

    /// Sets the description of the states, and nothing else.
    pub fn set_states(&mut self, states: Option<&'a str>)
        ensures
            final(self).spec_states() == match states {
                Some(states) => Some(states@),
                None => None,
            },
            final(self).spec_name() == old(self).spec_name(),
            final(self).spec_neighbourhoods() == old(self).spec_neighbourhoods(),
            final(self).spec_string() == old(self).spec_string(),
            final(self).spec_transitions() == old(self).spec_transitions(),
    {
        self.states = states;
    }

    /// Sets the text that was parsed, and nothing else.
    pub fn set_string(&mut self, string: Option<String>)
        ensures
            final(self).spec_string() == match string {
                Some(string) => Some(string@),
                None => None,
            },
            final(self).spec_name() == old(self).spec_name(),
            final(self).spec_neighbourhoods() == old(self).spec_neighbourhoods(),
            final(self).spec_states() == old(self).spec_states(),
            final(self).spec_transitions() == old(self).spec_transitions(),
    {
        self.string = string;
    }

    /// Sets the description of the transitions, and nothing else.
    pub fn set_transitions(&mut self, transitions: Option<&'a str>)
        ensures
            final(self).spec_transitions() == match transitions {
                Some(transitions) => Some(transitions@),
                None => None,
            },
            final(self).spec_name() == old(self).spec_name(),
            final(self).spec_neighbourhoods() == old(self).spec_neighbourhoods(),
            final(self).spec_states() == old(self).spec_states(),
            final(self).spec_string() == old(self).spec_string(),
    {
        self.transitions = transitions;
    }
}

/// Holds the text to be parsed, and nothing else yet: the name, the
/// neighbourhoods, the states and the transitions are for a parser to fill in.
pub fn parse_ca_string<'a>(string: &str) -> (parsed: ParsedCA<'a>)
    ensures
        parsed.spec_string() == Some(string@),
        parsed.spec_name() is None,
        parsed.spec_neighbourhoods() == Seq::<NType>::empty(),
        parsed.spec_states() is None,
        parsed.spec_transitions() is None,
{
    let mut pca = ParsedCA::new();
    pca.set_string(Some(string.to_owned()));
    pca
}

/// A text becomes the description that `parse_ca_string` makes of it.
impl<'a> From<String> for ParsedCA<'a> {
    fn from(value: String) -> (parsed: Self)
        ensures
            parsed.spec_string() == Some(value@),
            parsed.spec_name() is None,
            parsed.spec_neighbourhoods() == Seq::<NType>::empty(),
            parsed.spec_states() is None,
            parsed.spec_transitions() is None,
    {
        parse_ca_string(value.as_str())
    }
}

impl<'a> FromSpecImpl<String> for ParsedCA<'a> {
    /// Two descriptions of one text hold the same, but need not be one value.
    open spec fn obeys_from_spec() -> bool {
        false
    }

    open spec fn from_spec(value: String) -> Self {
        choose|parsed: Self|
            parsed.spec_string() == Some(value@) && parsed.spec_name() is None
                && parsed.spec_neighbourhoods() == Seq::<NType>::empty() && parsed.spec_states()
                is None && parsed.spec_transitions() is None
    }
}

} // verus!
