//! States of Euclidean spaces.

use vstd::prelude::*;
use crate::base::scalar::Scalar;
use crate::base::state::{copy_scalars, DynClone, State};

verus! {

/// A point of a Euclidean space: one coordinate per dimension.
#[derive(Debug)]
pub struct RealVectorState {
    pub values: Vec<Scalar>,
}

impl View for RealVectorState {
    type V = Seq<Scalar>;

    open spec fn view(&self) -> Seq<Scalar> {
        self.values@
    }
}

impl RealVectorState {
    pub fn new(values: Vec<Scalar>) -> (s: RealVectorState)
        ensures
            s@ == values@,
    {
        RealVectorState { values }
    }

    /// The number of coordinates.
    pub fn dimension(&self) -> (n: usize)
        ensures
            n == self@.len(),
    {
        self.values.len()
    }

    /// The coordinates, in order.
    pub fn to_array(&self) -> (values: Vec<Scalar>)
        ensures
            values@ == self@,
    {
        copy_scalars(&self.values)
    }

    /// The state with the coordinates `values`.
    pub fn from_array(values: &Vec<Scalar>) -> (s: RealVectorState)
        ensures
            s@ == values@,
    {
        RealVectorState { values: copy_scalars(values) }
    }
}

impl DynClone for RealVectorState {
    fn clone_box(&self) -> (copy: Box<RealVectorState>) {
        Box::new(RealVectorState { values: copy_scalars(&self.values) })
    }
}

impl State for RealVectorState {

}

} // verus!
