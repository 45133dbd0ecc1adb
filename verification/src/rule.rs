//! Rules: what the next state of a cell is, given its state and the states
//! of its neighbours.

use crate::errors::SumError;
use crate::state::State;
use core::marker::PhantomData;
use vstd::prelude::*;

verus! {

/// A Rule maps the current state of a cell and the current states of its
/// neighbours to the next state of the cell.
pub trait Rule<T> {
    /// The next state of a cell in the state `current` whose neighbours are in
    /// the states `neighbours`.
    fn apply(&self, neighbours: &Vec<&State<T>>, current: &State<T>) -> State<T>;
}

/// The states that `handed` refers to.
pub open spec fn states_of<T>(handed: Seq<&State<T>>) -> Seq<State<T>> {
    Seq::new(handed.len(), |k: int| *handed[k])
}

/// Whether `next` is what `rule` may have made of a cell in state `current`
/// whose neighbours are in the states `neighbours`.
pub open spec fn applied<T, U: Rule<T>>(
    rule: U,
    neighbours: Seq<State<T>>,
    current: State<T>,
    next: State<T>,
) -> bool {
    exists|handed: Vec<&State<T>>|
        states_of(handed@) == neighbours && #[trigger] call_ensures(
            U::apply,
            (&rule, &handed, &current),
            next,
        )
}

/// A function that maps one state to another, as a rule.
#[verifier::reject_recursive_types(T)]
pub struct RuleFunc<T, F: Fn(&Vec<&State<T>>, &State<T>) -> State<T>> {
    func: F,
    marker: PhantomData<T>,
}

impl<T, F: Fn(&Vec<&State<T>>, &State<T>) -> State<T>> RuleFunc<T, F> {
    /// The function that the rule applies.
    pub closed spec fn func(&self) -> F {
        self.func
    }

    /// The function can be called on any states.
    #[verifier::type_invariant]
    spec fn takes_any(self) -> bool {
        forall|neighbours: &Vec<&State<T>>, current: &State<T>|
            call_requires(self.func, (neighbours, current))
    }

    /// Makes a rule of a function that takes any states.
    pub fn new(func: F) -> (rule: Self)
        requires
            forall|neighbours: &Vec<&State<T>>, current: &State<T>|
                call_requires(func, (neighbours, current)),
        ensures
            rule.func() == func,
    {
        RuleFunc { func, marker: PhantomData }
    }
}

impl<T, F: Fn(&Vec<&State<T>>, &State<T>) -> State<T>> Rule<T> for RuleFunc<T, F> {
    fn apply(&self, neighbours: &Vec<&State<T>>, current: &State<T>) -> (next: State<T>)
        ensures
            call_ensures(self.func(), (neighbours, current), next),
    {
        proof {
            use_type_invariant(self);
        }
        (self.func)(neighbours, current)
    }
}

/// The table that `entries` stand for: each name with the rule of the first
/// entry that has it.
pub open spec fn table_of<U>(entries: Seq<(String, U)>) -> Map<Seq<char>, U>
    decreases entries.len(),
{
    if entries.len() == 0 {
        Map::empty()
    } else {
        table_of(entries.drop_first()).insert(entries[0].0@, entries[0].1)
    }
}

/// Mapping of each state, by its name, to the rule that determines the state
/// of a cell at the next step
pub struct Rules<U> {
    rules: Vec<(String, U)>,
}

impl<U> View for Rules<U> {
    type V = Map<Seq<char>, U>;

    closed spec fn view(&self) -> Map<Seq<char>, U> {
        table_of(self.rules@)
    }
}

/// Whether the entry at `index` is the first that has the name.
spec fn first_named<U>(entries: Seq<(String, U)>, name: Seq<char>, index: int) -> bool {
    &&& 0 <= index < entries.len()
    &&& entries[index].0@ == name
    &&& forall|before: int| 0 <= before < index ==> (#[trigger] entries[before]).0@ != name
}

/// Whether no entry has the name.
spec fn none_named<U>(entries: Seq<(String, U)>, name: Seq<char>) -> bool {
    forall|index: int| 0 <= index < entries.len() ==> (#[trigger] entries[index]).0@ != name
}

/// A table holds, for a name, the rule of the first entry that has it.
proof fn lemma_table_first<U>(entries: Seq<(String, U)>, name: Seq<char>, index: int)
    requires
        first_named(entries, name, index),
    ensures
        table_of(entries).contains_key(name),
        table_of(entries)[name] == entries[index].1,
    decreases entries.len(),
{
    if index > 0 {
        let rest = entries.drop_first();
        assert(entries[0].0@ != name);
        assert forall|before: int| 0 <= before < index - 1 implies (#[trigger] rest[before]).0@
            != name by {
            assert(entries[before + 1].0@ != name);
        }
        lemma_table_first(rest, name, index - 1);
    }
}

/// A table does not hold a name that no entry has.
proof fn lemma_table_none<U>(entries: Seq<(String, U)>, name: Seq<char>)
    requires
        none_named(entries, name),
    ensures
        !table_of(entries).contains_key(name),
    decreases entries.len(),
{
    if entries.len() > 0 {
        let rest = entries.drop_first();
        assert(entries[0].0@ != name);
        assert forall|index: int| 0 <= index < rest.len() implies (#[trigger] rest[index]).0@
            != name by {
            assert(entries[index + 1].0@ != name);
        }
        lemma_table_none(rest, name);
    }
}

impl<U> Rules<U> {
    /// Return a new, empty `Rules` struct
    pub fn new() -> (rules: Rules<U>)
        ensures
            rules@ == Map::<Seq<char>, U>::empty(),
    {
        Rules { rules: Vec::new() }
    }

    /// Set rules map: the table is replaced by the one that `rule_set`
    /// stands for, and keeps nothing of what it held.
    pub fn set_rules(&mut self, rule_set: Vec<(String, U)>)
        ensures
            final(self)@ == table_of(rule_set@),
    {
        self.rules = rule_set;
    }

    /// The rule for the state of the given name, if the table has one.
    pub fn rule_for<T>(&self, state: &State<T>) -> (found: Option<&U>)
        ensures
            found is Some == self@.contains_key(state.spec_name()),
            found is Some ==> *found->0 == self@[state.spec_name()],
    {
        let mut i: usize = 0;
        while i < self.rules.len()
            invariant
                i <= self.rules@.len(),
                forall|j: int| 0 <= j < i ==> (#[trigger] self.rules@[j]).0@ != state.spec_name(),
            decreases self.rules.len() - i,
        {
            if state.is_named(&self.rules[i].0) {
                proof {
                    lemma_table_first(self.rules@, state.spec_name(), i as int);
                }
                return Some(&self.rules[i].1);
            }
            i += 1;
        }
        proof {
            lemma_table_none(self.rules@, state.spec_name());
        }
        None
    }
}

/// What can be summed up to a `T`.
pub trait Sum<T> {
    /// The sum, or an error where there is none.
    fn sum(&self) -> Result<T, SumError>;
}

/// The sum of the values of `states`.
pub open spec fn total(states: Seq<&State<i32>>) -> int
    decreases states.len(),
{
    if states.len() == 0 {
        0
    } else {
        total(states.drop_last()) + states.last().spec_val()
    }
}

/// The sum of `count` values of `i32` stays within `count` times the bounds
/// of `i32`.
proof fn lemma_total_bounds(states: Seq<&State<i32>>)
    ensures
        states.len() * i32::MIN <= total(states) <= states.len() * i32::MAX,
    decreases states.len(),
{
    if states.len() > 0 {
        lemma_total_bounds(states.drop_last());
        assert((states.len() - 1) * i32::MIN + i32::MIN == states.len() * i32::MIN)
            by (nonlinear_arith);
        assert((states.len() - 1) * i32::MAX + i32::MAX == states.len() * i32::MAX)
            by (nonlinear_arith);
    }
}

/// The states of the neighbours of a cell sum up to the sum of their values,
/// unless that leaves the range of `i32`.
impl<'a> Sum<i32> for Vec<&'a State<i32>> {
    fn sum(&self) -> (sum: Result<i32, SumError>)
        ensures
            match sum {
                Ok(s) => s == total(self@),
                Err(_) => !(i32::MIN <= total(self@) <= i32::MAX),
            },
    {
        let mut s: i128 = 0;
        let mut i: usize = 0;
        while i < self.len()
            invariant
                i <= self@.len(),
                s == total(self@.take(i as int)),
                i * i32::MIN <= s <= i * i32::MAX,
            decreases self.len() - i,
        {
            proof {
                assert(self@.take(i + 1).drop_last() == self@.take(i as int));
                lemma_total_bounds(self@.take(i + 1));
                assert(i * i32::MIN >= usize::MAX * i32::MIN) by (nonlinear_arith)
                    requires
                        i <= usize::MAX,
                ;
                assert(i * i32::MAX <= usize::MAX * i32::MAX) by (nonlinear_arith)
                    requires
                        i <= usize::MAX,
                ;
            }
            s += *self[i].val() as i128;
            i += 1;
        }
        assert(self@.take(self@.len() as int) == self@);
        if s < i32::MIN as i128 || s > i32::MAX as i128 {
            Err(SumError)
        } else {
            Ok(s as i32)
        }
    }
}

} // verus!
