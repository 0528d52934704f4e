//! Lengths and interpolation fractions.
//!
//! A space measures distance in whole units of its own resolution. Planners
//! only compare lengths, add them and take their ratios, so the size of the
//! unit never matters to them.

use vstd::prelude::*;

verus! {

/// A distance, in units of the space's resolution.
pub type Length = u64;

/// A point between the two ends of a motion: `numerator / denominator`.
#[derive(Clone, Copy, Debug, PartialEq, Eq, Structural)]
pub struct Fraction {
    pub numerator: u64,
    pub denominator: u64,
}

impl Fraction {
    /// A fraction lies between zero and one.
    pub open spec fn wf(self) -> bool {
        0 < self.denominator && self.numerator <= self.denominator
    }

    /// The whole way.
    pub fn one() -> (t: Fraction)
        ensures
            t == (Fraction { numerator: 1, denominator: 1 }),
            t.wf(),
    {
        Fraction { numerator: 1, denominator: 1 }
    }

    /// One part in a hundred: the part of a space's extent that a motion may
    /// cover unchecked, where nothing else is asked for.
    pub fn hundredth() -> (t: Fraction)
        ensures
            t == (Fraction { numerator: 1, denominator: 100 }),
            t.wf(),
    {
        Fraction { numerator: 1, denominator: 100 }
    }
}

/// The part `t` of a length, rounded down. A fraction that is not between
/// zero and one is taken for the whole.
pub open spec fn spec_fraction_of(length: Length, t: Fraction) -> Length {
    if t.wf() {
        ((length as nat * t.numerator as nat) / t.denominator as nat) as Length
    } else {
        length
    }
}

/// Takes the part `t` of a length.
pub fn fraction_of(length: Length, t: Fraction) -> (part: Length)
    ensures
        part == spec_fraction_of(length, t),
        part <= length,
{
    if t.denominator == 0 || t.numerator > t.denominator {
        return length;
    }
    proof {
        let l = length as nat;
        let n = t.numerator as nat;
        let d = t.denominator as nat;
        assert(l * n <= l * d) by (nonlinear_arith)
            requires
                n <= d,
        ;
        assert(l * d <= 0xffff_ffff_ffff_ffff * 0xffff_ffff_ffff_ffff) by (nonlinear_arith)
            requires
                l <= 0xffff_ffff_ffff_ffff,
                d <= 0xffff_ffff_ffff_ffff,
        ;
    }
    let product: u128 = (length as u128) * (t.numerator as u128);
    let quotient: u128 = product / (t.denominator as u128);
    proof {
        let l = length as nat;
        let n = t.numerator as nat;
        let d = t.denominator as nat;
        assert((l * n) / d <= l) by (nonlinear_arith)
            requires
                l * n <= l * d,
                d > 0,
        ;
    }
    quotient as u64
}

/// The fraction of the way from a state towards a target at `distance` that a
/// step of at most `max_distance` covers.
pub open spec fn spec_step_fraction(max_distance: Length, distance: Length) -> Fraction {
    if distance > max_distance {
        Fraction { numerator: max_distance, denominator: distance }
    } else {
        Fraction { numerator: 1, denominator: 1 }
    }
}

/// How far to go towards a target at `distance` with a step of at most
/// `max_distance`: all the way if the target is within the step, else the
/// part of the way that the step covers.
pub fn step_fraction(max_distance: Length, distance: Length) -> (t: Fraction)
    ensures
        t == spec_step_fraction(max_distance, distance),
        t.wf(),
{
    if distance > max_distance {
        Fraction { numerator: max_distance, denominator: distance }
    } else {
        Fraction::one()
    }
}

/// The number of pieces a motion of length `distance` is cut into so that no
/// piece is longer than `longest`: the quotient rounded up, and at least one.
pub open spec fn spec_segment_count(distance: Length, longest: Length) -> nat {
    if distance == 0 {
        1
    } else {
        ((distance - 1) / (longest as int) + 1) as nat
    }
}

/// The segment count is the least number of pieces, and at least one, such
/// that pieces of length `longest` cover `distance`.
pub proof fn lemma_segment_count_is_least_cover(distance: Length, longest: Length)
    requires
        longest > 0,
    ensures
        spec_segment_count(distance, longest) >= 1,
        spec_segment_count(distance, longest) * longest >= distance,
        distance > 0 ==> (spec_segment_count(distance, longest) - 1) * longest < distance,
{
    if distance > 0 {
        let q = (distance - 1) / (longest as int);
        let r = (distance - 1) % (longest as int);
        assert(distance - 1 == q * longest + r && 0 <= r < longest) by (nonlinear_arith)
            requires
                q == (distance - 1) / (longest as int),
                r == (distance - 1) % (longest as int),
                longest > 0,
        ;
        assert(q >= 0) by (nonlinear_arith)
            requires
                q == (distance - 1) / (longest as int),
                distance >= 1,
                longest > 0,
        ;
        assert((q + 1) * longest == q * longest + longest) by (nonlinear_arith);
    }
}

/// Counts the pieces that a motion of length `distance` is cut into.
pub fn segment_count(distance: Length, longest: Length) -> (n: u64)
    requires
        longest > 0,
    ensures
        n == spec_segment_count(distance, longest),
        n >= 1,
{
    if distance == 0 {
        1
    } else {
        let q: u64 = (distance - 1) / longest;
        assert(q <= distance - 1) by (nonlinear_arith)
            requires
                q == (distance - 1) / (longest as int),
                longest > 0,
                distance >= 1,
        ;
        q + 1
    }
}

/// A positive weight, given as a ratio of two counts.
#[derive(Clone, Copy, Debug)]
pub struct Weight {
    numerator: u64,
    denominator: u64,
}

impl Weight {
    /// A weight is a ratio of two counts above zero.
    #[verifier::type_invariant]
    pub closed spec fn inv(self) -> bool {
        0 < self.numerator && 0 < self.denominator
    }

    pub closed spec fn spec_numerator(self) -> u64 {
        self.numerator
    }

    pub closed spec fn spec_denominator(self) -> u64 {
        self.denominator
    }

    /// The weight `numerator / denominator`, or nothing where either count
    /// is zero.
    pub fn new(numerator: u64, denominator: u64) -> (w: Option<Weight>)
        ensures
            w is Some <==> 0 < numerator && 0 < denominator,
            w matches Some(v) ==> v.spec_numerator() == numerator && v.spec_denominator()
                == denominator,
    {
        if 0 < numerator && 0 < denominator {
            Some(Weight { numerator, denominator })
        } else {
            None
        }
    }

    /// The weight one.
    pub fn one() -> (w: Weight)
        ensures
            w.spec_numerator() == 1,
            w.spec_denominator() == 1,
    {
        Weight { numerator: 1, denominator: 1 }
    }

    /// A length multiplied by the weight, rounded down.
    pub open spec fn spec_apply(self, length: nat) -> nat {
        if self.spec_denominator() == 0 {
            0
        } else {
            (length * self.spec_numerator() / (self.spec_denominator() as int)) as nat
        }
    }

    /// Multiplies a length by the weight, rounding down.
    pub fn apply(&self, length: Length) -> (weighted: u128)
        ensures
            weighted == self.spec_apply(length as nat),
    {
        proof {
            use_type_invariant(self);
            assert(length * self.numerator <= u64::MAX * u64::MAX) by (nonlinear_arith)
                requires
                    length <= u64::MAX,
                    self.numerator <= u64::MAX,
            ;
            assert(length * self.numerator >= 0) by (nonlinear_arith)
                requires
                    length >= 0,
                    self.numerator >= 0,
            ;
        }
        let product: u128 = (length as u128) * (self.numerator as u128);
        product / (self.denominator as u128)
    }
}

/// Whether `r` is the whole part of the square root of `n`.
pub open spec fn is_sqrt(n: nat, r: nat) -> bool {
    r * r <= n < (r + 1) * (r + 1)
}

/// The whole part of the square root of `n`.
pub open spec fn spec_isqrt(n: nat) -> nat {
    choose|r: nat| is_sqrt(n, r)
}

/// A number has one whole square root only.
pub proof fn lemma_sqrt_is_unique(n: nat, a: nat, b: nat)
    requires
        is_sqrt(n, a),
        is_sqrt(n, b),
    ensures
        a == b,
{
    if a < b {
        assert((a + 1) * (a + 1) <= b * b) by (nonlinear_arith)
            requires
                a + 1 <= b,
        ;
    } else if b < a {
        assert((b + 1) * (b + 1) <= a * a) by (nonlinear_arith)
            requires
                b + 1 <= a,
        ;
    }
}

/// Computes the whole part of the square root of `n`.
pub fn isqrt(n: u128) -> (r: u64)
    ensures
        is_sqrt(n as nat, r as nat),
        r == spec_isqrt(n as nat),
{
    let mut low: u128 = 0;
    let mut high: u128 = 0x1_0000_0000_0000_0000;
    assert(high * high > n) by (nonlinear_arith)
        requires
            high == 0x1_0000_0000_0000_0000,
            n <= u128::MAX,
    ;
    while high - low > 1
        invariant
            low < high <= 0x1_0000_0000_0000_0000,
            low * low <= n,
            high * high > n,
        decreases high - low,
    {
        let mid: u128 = low + (high - low) / 2;
        assert(mid * mid <= 0xffff_ffff_ffff_ffff * 0xffff_ffff_ffff_ffff) by (nonlinear_arith)
            requires
                0 <= mid <= 0xffff_ffff_ffff_ffff,
        ;
        if mid * mid <= n {
            low = mid;
        } else {
            high = mid;
        }
    }
    proof {
        assert(high == low + 1);
        let r = low as nat;
        assert(is_sqrt(n as nat, r));
        let chosen = spec_isqrt(n as nat);
        assert(is_sqrt(n as nat, chosen));
        lemma_sqrt_is_unique(n as nat, r, chosen);
    }
    low as u64
}

/// The sum of the squares of the terms.
pub open spec fn sum_of_squares(terms: Seq<nat>) -> nat
    decreases terms.len(),
{
    if terms.len() == 0 {
        0
    } else {
        sum_of_squares(terms.drop_last()) + terms.last() * terms.last()
    }
}

/// The length of the vector with the components `terms`: the whole part of
/// the root of the sum of their squares, or the largest length where that
/// lies beyond it.
pub open spec fn spec_norm(terms: Seq<nat>) -> Length {
    let root = spec_isqrt(sum_of_squares(terms));
    if root > u64::MAX {
        u64::MAX
    } else {
        root as u64
    }
}

/// A number of at least 2^128 has a root beyond the largest length.
pub proof fn lemma_large_root(n: nat)
    requires
        n >= 0x1_0000_0000_0000_0000_0000_0000_0000_0000,
    ensures
        spec_isqrt(n) > u64::MAX,
{
    let r = spec_isqrt(n);
    lemma_sqrt_exists(n);
    if r <= u64::MAX {
        assert((r + 1) * (r + 1) <= 0x1_0000_0000_0000_0000 * 0x1_0000_0000_0000_0000)
            by (nonlinear_arith)
            requires
                0 <= r + 1 <= 0x1_0000_0000_0000_0000,
        ;
    }
}

/// Every number has a whole square root.
pub proof fn lemma_sqrt_exists(n: nat)
    ensures
        is_sqrt(n, spec_isqrt(n)),
    decreases n,
{
    if n == 0 {
        assert(0nat * 0nat <= 0nat < (0nat + 1) * (0nat + 1)) by (nonlinear_arith);
        assert(is_sqrt(0, 0));
    } else {
        lemma_sqrt_exists((n - 1) as nat);
        let r = spec_isqrt((n - 1) as nat);
        if (r + 1) * (r + 1) <= n {
            assert((r + 2) * (r + 2) > n) by (nonlinear_arith)
                requires
                    (r + 1) * (r + 1) > n - 1,
            ;
            assert(is_sqrt(n, r + 1));
        } else {
            assert(is_sqrt(n, r));
        }
    }
}

/// Computes the length of the vector with the components `terms`.
pub fn norm(terms: &Vec<u128>) -> (length: Length)
    ensures
        length == spec_norm(terms@.map_values(|t: u128| t as nat)),
{
    let ghost all = terms@.map_values(|t: u128| t as nat);
    let mut total: u128 = 0;
    let mut i: usize = 0;
    while i < terms.len()
        invariant
            i <= terms@.len(),
            all == terms@.map_values(|t: u128| t as nat),
            total == sum_of_squares(all.subrange(0, i as int)),
        decreases terms@.len() - i,
    {
        let t: u128 = terms[i];
        proof {
            let upto = all.subrange(0, i + 1);
            assert(upto.drop_last() == all.subrange(0, i as int));
            assert(upto.last() == t as nat);
            lemma_squares_grow(all, i + 1);
        }
        if t > 0xffff_ffff_ffff_ffff {
            proof {
                assert(t * t >= 0x1_0000_0000_0000_0000 * 0x1_0000_0000_0000_0000) by (nonlinear_arith)
                    requires
                        t >= 0x1_0000_0000_0000_0000,
                ;
                lemma_large_root(sum_of_squares(all));
            }
            return u64::MAX;
        }
        assert(t * t <= 0xffff_ffff_ffff_ffff * 0xffff_ffff_ffff_ffff) by (nonlinear_arith)
            requires
                0 <= t <= 0xffff_ffff_ffff_ffff,
        ;
        let square: u128 = t * t;
        if total > u128::MAX - square {
            proof {
                lemma_large_root(sum_of_squares(all));
            }
            return u64::MAX;
        }
        total = total + square;
        i = i + 1;
    }
    proof {
        assert(all.subrange(0, terms@.len() as int) == all);
    }
    isqrt(total)
}

/// The sum of the squares of all terms is at least that of the first `upto`.
pub proof fn lemma_squares_grow(terms: Seq<nat>, upto: int)
    requires
        0 <= upto <= terms.len(),
    ensures
        sum_of_squares(terms.subrange(0, upto)) <= sum_of_squares(terms),
    decreases terms.len() - upto,
{
    if upto < terms.len() {
        lemma_squares_grow(terms, upto + 1);
        let next = terms.subrange(0, upto + 1);
        assert(next.drop_last() == terms.subrange(0, upto));
        assert(next.last() * next.last() >= 0) by (nonlinear_arith);
    } else {
        assert(terms.subrange(0, upto) == terms);
    }
}

/// A number within the range of lengths, or the largest length.
pub open spec fn spec_cap(n: nat) -> Length {
    if n > u64::MAX {
        u64::MAX
    } else {
        n as u64
    }
}

/// Brings a number into the range of lengths.
pub fn cap(n: u128) -> (length: Length)
    ensures
        length == spec_cap(n as nat),
{
    if n > 0xffff_ffff_ffff_ffff {
        u64::MAX
    } else {
        n as u64
    }
}

} // verus!
