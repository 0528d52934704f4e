//! Error kinds reported by spaces and planners.

use vstd::prelude::*;

verus! {

/// Why a planner gave up.
#[derive(Clone, Copy, Debug, PartialEq, Eq, Structural)]
pub enum PlanningError {
    /// `solve` was called before `setup`.
    PlannerUninitialised,
    /// The start state was rejected by the validity checker or lies out of bounds.
    InvalidStartState,
    /// The time budget ran out.
    Timeout,
    /// The planner finished its work without connecting start and goal.
    NoSolutionFound,
}

/// Why a space could not be made.
#[derive(Clone, Copy, Debug, PartialEq, Eq, Structural)]
pub enum StateSpaceError {
    /// The number of bounds or weights does not fit the number of dimensions
    /// or parts.
    InvalidDimension,
    /// A lower limit lies above its upper limit, or a limit is not a number.
    InvalidBounds,
}

/// Why no state could be drawn.
#[derive(Clone, Copy, Debug, PartialEq, Eq, Structural)]
pub enum StateSamplingError {
    /// The space cannot be sampled, for example because a dimension is unbounded.
    SamplingError,
    /// The goal could not produce a sample.
    GoalRegionUnsatisfiable,
}

} // verus!
