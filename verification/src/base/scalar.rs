//! Coordinates.
//!
//! The library stores and moves coordinates but never computes with them: a
//! coordinate is kept as the 64-bit pattern of a binary64 number, exactly as
//! the caller gave it.

use vstd::prelude::*;

verus! {

/// The pattern of the number zero.
pub const ZERO_BITS: u64 = 0;

/// The pattern of the number one.
pub const ONE_BITS: u64 = 0x3FF0_0000_0000_0000;

/// One coordinate of a state.
#[derive(Clone, Copy, Debug, PartialEq, Eq, Structural)]
pub struct Scalar {
    pub bits: u64,
}

impl Scalar {
    /// The coordinate with the given pattern.
    pub fn from_bits(bits: u64) -> (s: Scalar)
        ensures
            s.bits == bits,
    {
        Scalar { bits }
    }

    /// The pattern of the coordinate.
    pub fn to_bits(&self) -> (bits: u64)
        ensures
            bits == self.bits,
    {
        self.bits
    }

    pub open spec fn spec_zero() -> Scalar {
        Scalar { bits: ZERO_BITS }
    }

    pub open spec fn spec_one() -> Scalar {
        Scalar { bits: ONE_BITS }
    }

    /// The coordinate zero.
    pub fn zero() -> (s: Scalar)
        ensures
            s == Scalar::spec_zero(),
    {
        Scalar { bits: ZERO_BITS }
    }

    /// The coordinate one.
    pub fn one() -> (s: Scalar)
        ensures
            s == Scalar::spec_one(),
    {
        Scalar { bits: ONE_BITS }
    }
}

/// The element of `values` at `index`, or `fallback` where `values` is too short.
pub open spec fn spec_get_or(values: Seq<Scalar>, index: int, fallback: Scalar) -> Scalar {
    if 0 <= index < values.len() {
        values[index]
    } else {
        fallback
    }
}

/// Reads the element of `values` at `index`, or `fallback` where `values`
/// is too short.
pub fn get_or(values: &Vec<Scalar>, index: usize, fallback: Scalar) -> (s: Scalar)
    ensures
        s == spec_get_or(values@, index as int, fallback),
{
    if index < values.len() {
        values[index]
    } else {
        fallback
    }
}

} // verus!
