//! Wall-clock time, for planners' time budgets.

use vstd::prelude::*;
use std::time::{Duration, Instant};

verus! {

/// `std::time::Instant`, a moment on the machine's clock. Nothing is known
/// of its value.
#[verifier::external_type_specification]
#[verifier::external_body]
pub struct ExInstant(Instant);

/// `Instant::now`: the present moment.
#[verifier::external_body]
pub(crate) fn now() -> (t: Instant) {
    Instant::now()
}

/// `Instant::elapsed`: the time that has passed since `start`. It depends on
/// the clock, so nothing is promised of it.
#[verifier::external_body]
pub(crate) fn elapsed(start: &Instant) -> (d: Duration) {
    start.elapsed()
}

/// `Duration::as_nanos`: a span of time as a count of nanoseconds.
#[verifier::external_body]
pub(crate) fn nanos(d: &Duration) -> (n: u128) {
    d.as_nanos()
}

/// A time budget that started running when it was made.
pub(crate) struct Deadline {
    start: Instant,
    budget: u128,
}

impl Deadline {
    /// Starts the clock on a budget of `timeout`.
    pub(crate) fn start(timeout: &Duration) -> (deadline: Deadline) {
        Deadline { start: now(), budget: nanos(timeout) }
    }

    /// Whether more time has passed than the budget allows.
    pub(crate) fn expired(&self) -> (late: bool) {
        let spent = elapsed(&self.start);
        self.exceeded_by(nanos(&spent))
    }

    /// The budget, in nanoseconds.
    pub(crate) closed spec fn spec_budget(&self) -> u128 {
        self.budget
    }

    /// Whether `spent` nanoseconds are more than the budget allows. A budget
    /// is not exceeded by the time that uses it up to the last nanosecond.
    pub(crate) fn exceeded_by(&self, spent: u128) -> (late: bool)
        ensures
            late == (spent > self.spec_budget()),
    {
        spent > self.budget
    }
}

} // verus!
