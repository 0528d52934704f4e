//! Motion validation: is every checked point along an edge valid?

use vstd::prelude::*;
use crate::base::measure::{segment_count, spec_segment_count, Fraction, Length};
use crate::base::space::StateSpace;
use crate::base::state::{DynClone, ModelOf};
use crate::base::validity::StateValidityChecker;

verus! {

/// Whether the `i`-th of the `n` points that cut the motion from `from` to
/// `to` into equal pieces is valid.
pub open spec fn probe_valid<SP: StateSpace, VC: StateValidityChecker<SP::StateType>>(
    space: &SP,
    checker: &VC,
    from: ModelOf<SP::StateType>,
    to: ModelOf<SP::StateType>,
    i: u64,
    n: u64,
) -> bool {
    checker.spec_is_valid(
        space.spec_interpolate(from, to, Fraction { numerator: i, denominator: n }),
    )
}

/// The motion from `from` to `to` is valid when every point that cuts it into
/// `spec_segment_count` equal pieces, the end point included, is valid. The
/// start point is taken to be valid already.
pub open spec fn motion_valid<SP: StateSpace, VC: StateValidityChecker<SP::StateType>>(
    space: &SP,
    checker: &VC,
    from: ModelOf<SP::StateType>,
    to: ModelOf<SP::StateType>,
) -> bool {
    let n = spec_segment_count(
        space.spec_distance(from, to),
        space.spec_longest_valid_segment_length(),
    ) as u64;
    forall|i: u64| 1 <= i <= n ==> #[trigger] probe_valid(space, checker, from, to, i, n)
}

/// Whether the motion from `b` back to `a` passes the points that the motion
/// from `a` to `b` passes: its `i`-th point is the point as far from `b` on the
/// way there, and it ends at `a`.
pub open spec fn same_way_back<SP: StateSpace>(
    space: &SP,
    a: ModelOf<SP::StateType>,
    b: ModelOf<SP::StateType>,
) -> bool {
    let n = spec_segment_count(
        space.spec_distance(a, b),
        space.spec_longest_valid_segment_length(),
    ) as u64;
    &&& space.spec_interpolate(b, a, Fraction { numerator: n, denominator: n }) == a
    &&& forall|i: u64|
        1 <= i < n ==> #[trigger] space.spec_interpolate(
            b,
            a,
            Fraction { numerator: i, denominator: n },
        ) == space.spec_interpolate(a, b, Fraction { numerator: (n - i) as u64, denominator: n })
}

/// A valid motion from a valid point is valid the other way too, where the
/// way back passes the points of the way there.
pub proof fn lemma_motion_is_valid_both_ways<SP: StateSpace, VC: StateValidityChecker<SP::StateType>>(
    space: &SP,
    checker: &VC,
    a: ModelOf<SP::StateType>,
    b: ModelOf<SP::StateType>,
)
    requires
        checker.spec_is_valid(a),
        motion_valid(space, checker, a, b),
        same_way_back(space, a, b),
    ensures
        motion_valid(space, checker, b, a),
{
    space.lemma_distance_is_symmetric(a, b);
    let n = spec_segment_count(
        space.spec_distance(a, b),
        space.spec_longest_valid_segment_length(),
    ) as u64;
    assert forall|i: u64| 1 <= i <= n implies #[trigger] probe_valid(space, checker, b, a, i, n) by {
        if i < n {
            assert(probe_valid(space, checker, a, b, (n - i) as u64, n));
        }
    }
}

/// Checks the motion from `from` to `to` point by point, stopping at the
/// first invalid one.
pub fn check_motion<SP: StateSpace, VC: StateValidityChecker<SP::StateType>>(
    space: &SP,
    checker: &VC,
    from: &SP::StateType,
    to: &SP::StateType,
) -> (valid: bool)
    ensures
        valid == motion_valid(space, checker, from@, to@),
{
    let d: Length = space.distance(from, to);
    let longest: Length = space.get_longest_valid_segment_length();
    let n: u64 = segment_count(d, longest);
    let mut probe = *from.clone_box();
    let mut i: u64 = 1;
    while i <= n
        invariant
            1 <= i <= n + 1,
            n == spec_segment_count(
                space.spec_distance(from@, to@),
                space.spec_longest_valid_segment_length(),
            ),
            forall|j: u64| 1 <= j < i ==> #[trigger] probe_valid(space, checker, from@, to@, j, n),
        decreases n + 1 - i,
    {
        space.interpolate(from, to, Fraction { numerator: i, denominator: n }, &mut probe);
        if !checker.is_valid(&probe) {
            assert(!probe_valid(space, checker, from@, to@, i, n));
            assert(n == spec_segment_count(
                space.spec_distance(from@, to@),
                space.spec_longest_valid_segment_length(),
            ) as u64);
            return false;
        }
        if i == n {
            return true;
        }
        i = i + 1;
    }
    true
}

} // verus!
