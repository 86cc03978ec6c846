use vstd::prelude::*;

use crate::program::State;
use crate::tape::Segment;

verus! {

/// Error returned when parsing a program fails or a check is violated.
#[derive(Debug, Clone, Copy, PartialEq, Eq, Structural)]
pub enum InvalidProgram {
    /// A transition was missing a from state.
    MissingFrom,
    /// A transition was missing a to state.
    MissingTo,
    /// A transition was missing a condition.
    MissingCondition,
    /// A transition was missing a write segment.
    MissingWrite,
    /// A transition was missing a movement action.
    MissingAction,
    /// A state could not be parsed, because it is not a valid integer.
    InvalidState,
    /// A segment could not be parsed, because it is not "1", "0", "_" or " ".
    InvalidSegment,
    /// An action could not be parsed, because it is not "r", "l", "n" in upper-
    /// or lowercase, empty, "_" or " ".
    InvalidAction,
    /// The program is missing an initial state.
    MissingInitialState,
}

/// An error returned by executing a program with a [`crate::TuringMachine`].
#[derive(Debug, Clone, Copy, PartialEq, Eq, Structural)]
pub enum ExecutionError {
    /// No transition is defined for the current state and segment.
    UndefinedBehavior(State, Segment),
    /// Error state was reached.
    ReachedError(State),
    /// The machine was still running after `u128::MAX` steps, in the given
    /// state. No physical run gets there; the counter only bounds the loop.
    OutOfSteps(State),
}

} // verus!
