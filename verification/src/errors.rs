//! What can go wrong while a generation is computed.

use vstd::prelude::*;

verus! {

/// A sum of neighbour values could not be formed.
#[derive(Clone, Copy, Debug, PartialEq, Eq)]
pub struct SumError;

impl SumError {
    /// The text that describes the error.
    pub fn message(&self) -> (text: &'static str)
        ensures
            text@ == "Invalid item To Sum"@,
    {
        "Invalid item To Sum"
    }
}

/// Why a generation could not be computed. Either way nothing was changed.
#[derive(Clone, Copy, Debug, PartialEq, Eq)]
pub enum StepError {
    /// A cell that is due has a neighbour with no current state.
    MissingNeighbourState,
    /// The current state of a cell that is due has no rule in the table.
    MissingRule,
}

impl StepError {
    /// The text that describes the error.
    pub fn message(&self) -> (text: &'static str)
        ensures
            text@ == match self {
                StepError::MissingNeighbourState => "missing neighbour state"@,
                StepError::MissingRule => "missing rule"@,
            },
    {
        match self {
            StepError::MissingNeighbourState => "missing neighbour state",
            StepError::MissingRule => "missing rule",
        }
    }
}

} // verus!
