//! States: points of a configuration space.

use vstd::prelude::*;
use crate::base::scalar::Scalar;

pub use crate::base::states::compound_state::{CompoundState, StateValue};
pub use crate::base::states::real_vector_state::RealVectorState;
pub use crate::base::states::se2_state::SE2State;
pub use crate::base::states::se3_state::SE3State;
pub use crate::base::states::so2_state::SO2State;
pub use crate::base::states::so3_state::SO3State;

verus! {

/// States are copied into planners' graphs and out into paths. A copy must
/// stand for the same point as the state it was made from; the planners rely
/// on that and on nothing else of a state.
pub trait DynClone: View + Sized {
    /// A copy that stands for the same point.
    fn clone_box(&self) -> (copy: Box<Self>)
        ensures
            (*copy)@ == self@,
    ;
}

/// A point of a configuration space.
pub trait State: DynClone {

}

/// The mathematical value that a state of type `S` stands for. Two states
/// with the same model are the same point.
pub type ModelOf<S> = <S as View>::V;

/// Copies a list of coordinates.
pub fn copy_scalars(values: &Vec<Scalar>) -> (copy: Vec<Scalar>)
    ensures
        copy@ == values@,
{
    let mut copy: Vec<Scalar> = Vec::new();
    let mut i: usize = 0;
    while i < values.len()
        invariant
            i <= values.len(),
            copy@ == values@.subrange(0, i as int),
        decreases values.len() - i,
    {
        copy.push(values[i]);
        i = i + 1;
        assert(copy@ == values@.subrange(0, i as int));
    }
    assert(values@.subrange(0, values.len() as int) == values@);
    copy
}

} // verus!
