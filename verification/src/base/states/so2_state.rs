//! States of the circle.

use vstd::prelude::*;
use crate::base::scalar::{get_or, spec_get_or, Scalar};
use crate::base::state::{DynClone, State};

verus! {

/// A point of the circle: an angle, kept as given.
#[derive(Clone, Copy, Debug, PartialEq, Eq, Structural)]
pub struct SO2State {
    pub value: Scalar,
}

impl View for SO2State {
    type V = Scalar;

    open spec fn view(&self) -> Scalar {
        self.value
    }
}

impl SO2State {
    pub fn new(value: Scalar) -> (s: SO2State)
        ensures
            s@ == value,
    {
        SO2State { value }
    }

    /// The angle, as a list of one coordinate.
    pub fn to_array(&self) -> (values: Vec<Scalar>)
        ensures
            values@ == seq![self@],
    {
        let mut values: Vec<Scalar> = Vec::new();
        values.push(self.value);
        values
    }

    /// The state whose angle is the first of `values`, or zero where there
    /// is none.
    pub fn from_array(values: &Vec<Scalar>) -> (s: SO2State)
        ensures
            s@ == spec_get_or(values@, 0, Scalar::spec_zero()),
    {
        SO2State { value: get_or(values, 0, Scalar::zero()) }
    }
}

impl DynClone for SO2State {
    fn clone_box(&self) -> (copy: Box<SO2State>) {
        Box::new(SO2State { value: self.value })
    }
}

impl State for SO2State {

}

} // verus!
