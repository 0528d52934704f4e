//! The pseudo-random generator that spaces, goals and planners draw from.

use vstd::prelude::*;
use rand::rngs::StdRng;
use rand::Rng;
use rand::SeedableRng;

verus! {

/// `rand::rngs::StdRng`, the generator that the planners carry. Nothing is
/// known of its state.
#[verifier::external_type_specification]
#[verifier::external_body]
pub struct ExStdRng(StdRng);

/// A chance between zero and one, given as a ratio of two counts.
#[derive(Clone, Copy, Debug)]
pub struct Probability {
    numerator: u32,
    denominator: u32,
}

impl Probability {
    /// A chance is a ratio of at most one with a denominator above zero.
    #[verifier::type_invariant]
    pub closed spec fn inv(self) -> bool {
        0 < self.denominator && self.numerator <= self.denominator
    }

    pub closed spec fn spec_numerator(self) -> u32 {
        self.numerator
    }

    pub closed spec fn spec_denominator(self) -> u32 {
        self.denominator
    }

    /// The chance `numerator / denominator`, or nothing where that is no
    /// chance: the denominator is zero or the ratio exceeds one.
    pub fn new(numerator: u32, denominator: u32) -> (p: Option<Probability>)
        ensures
            p is Some <==> 0 < denominator && numerator <= denominator,
            p matches Some(q) ==> q.spec_numerator() == numerator && q.spec_denominator()
                == denominator,
    {
        if 0 < denominator && numerator <= denominator {
            Some(Probability { numerator, denominator })
        } else {
            None
        }
    }

    /// The chance that never comes true.
    pub fn never() -> (p: Probability)
        ensures
            p.spec_numerator() == 0,
            p.spec_denominator() == 1,
    {
        Probability { numerator: 0, denominator: 1 }
    }

    /// The count of favourable cases.
    pub fn numerator(&self) -> (n: u32)
        ensures
            n == self.spec_numerator(),
            n <= self.spec_denominator(),
    {
        proof {
            use_type_invariant(self);
        }
        self.numerator
    }

    /// The count of all cases, which is never zero.
    pub fn denominator(&self) -> (d: u32)
        ensures
            d == self.spec_denominator(),
            d > 0,
    {
        proof {
            use_type_invariant(self);
        }
        self.denominator
    }
}

/// `StdRng::seed_from_u64`: a generator whose stream is fixed by `seed`.
#[verifier::external_body]
pub(crate) fn seeded_rng(seed: u64) -> (rng: StdRng) {
    StdRng::seed_from_u64(seed)
}

/// `StdRng::try_from_os_rng`: a generator seeded by the operating system, or
/// nothing where the system gives no entropy.
#[verifier::external_body]
pub(crate) fn entropy_rng() -> (rng: Option<StdRng>) {
    StdRng::try_from_os_rng().ok()
}

/// `Rng::random_ratio`: a coin that lands `true` with the chance
/// `numerator / denominator`. The outside function panics on a zero
/// denominator and on a ratio above one, which the precondition leaves out.
/// It promises the outcome for the two sure chances only: never `true` with
/// a numerator of zero, always `true` where numerator and denominator are
/// equal.
#[verifier::external_body]
pub(crate) fn random_ratio(rng: &mut StdRng, numerator: u32, denominator: u32) -> (heads: bool)
    requires
        0 < denominator,
        numerator <= denominator,
    ensures
        numerator == 0 ==> !heads,
        numerator == denominator ==> heads,
{
    rng.random_ratio(numerator, denominator)
}

/// A generator for a planner: seeded where a seed is given, so that equal
/// seeds give equal streams, and seeded by the operating system otherwise.
/// Where the system has no entropy to give, the seed is zero.
pub(crate) fn rng_for(seed: Option<u64>) -> (rng: StdRng) {
    match seed {
        Some(s) => seeded_rng(s),
        None => match entropy_rng() {
            Some(rng) => rng,
            None => seeded_rng(0),
        },
    }
}

/// Flips a coin that lands `true` with chance `p`: never where the chance
/// is nought, always where it is one.
pub(crate) fn flip(rng: &mut StdRng, p: &Probability) -> (heads: bool)
    ensures
        p.spec_numerator() == 0 ==> !heads,
        p.spec_numerator() == p.spec_denominator() ==> heads,
{
    random_ratio(rng, p.numerator(), p.denominator())
}

} // verus!
