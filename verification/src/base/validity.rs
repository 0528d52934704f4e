//! The validity oracle.

use vstd::prelude::*;
use crate::base::state::{ModelOf, State};

verus! {

/// Decides whether a state is acceptable, for example free of collision.
///
/// The oracle is given by its implementation, and the planners are proved
/// against the contract stated here alone: the answer is a function of the
/// point that the state stands for. A checker that fails within must still
/// answer, and `false` is the safe answer.
pub trait StateValidityChecker<S: State> {
    /// Whether a point is valid.
    spec fn spec_is_valid(&self, state: ModelOf<S>) -> bool;

    /// Tests a state.
    fn is_valid(&self, state: &S) -> (valid: bool)
        ensures
            valid == self.spec_is_valid(state@),
    ;
}

} // verus!
