use vstd::prelude::*;

verus! {

/// Half of the representable `u64` range: the threshold that decides circular
/// frame ordering, as in sequence-number comparison for unreliable transports.
pub const HALF_MAX_VALUE: u64 = u64::MAX / 2;

/// A logical simulation step counter. Ordering is circular, not absolute:
/// two frames are compared by their distance modulo the full `u64` range,
/// so comparisons stay consistent after arithmetic wraparound.
#[derive(Debug, Clone, Copy, PartialEq, Eq, Structural)]
pub struct Frame(pub u64);

/// Number of steps from `from` forward to `to`, modulo the `u64` range.
pub open spec fn frame_dist(from: u64, to: u64) -> nat {
    if to >= from {
        (to - from) as nat
    } else {
        (to + 0x1_0000_0000_0000_0000 - from) as nat
    }
}

/// `a` is logically ahead of `b` under circular ordering.
pub open spec fn circ_gt(a: u64, b: u64) -> bool {
    ((a > b) && (a - b <= HALF_MAX_VALUE)) || ((a < b) && (b - a > HALF_MAX_VALUE))
}

/// `a` is at or circularly behind `f`.
pub open spec fn at_or_before(a: u64, f: u64) -> bool {
    a == f || circ_gt(f, a)
}

/// The frame counter advanced by `n` steps, wrapping modulo the `u64` range.
/// Meaningful for `0 <= n < 2^64`.
pub open spec fn fadd(a: u64, n: int) -> u64
    recommends
        0 <= n < 0x1_0000_0000_0000_0000,
{
    if a + n <= u64::MAX {
        (a + n) as u64
    } else {
        (a + n - 0x1_0000_0000_0000_0000) as u64
    }
}

impl Frame {
    /// Returns the raw value of the frame.
    pub fn raw_value(&self) -> (r: u64)
        ensures
            r == self.0,
    {
        self.0
    }

    /// Returns true if self is logically ahead of `other`, tolerating
    /// wraparound of the underlying counter.
    pub fn greater_than(&self, other: Frame) -> (r: bool)
        ensures
            r == circ_gt(self.0, other.0),
    {
        let s1 = self.0;
        let s2 = other.0;
        ((s1 > s2) && (s1 - s2 <= HALF_MAX_VALUE)) || ((s1 < s2) && (s2 - s1 > HALF_MAX_VALUE))
    }

    /// Advances the frame by `n`, wrapping modulo the full range so that the
    /// result stays consistent with the circular comparison rule.
    pub fn add(self, rhs: u64) -> (r: Frame)
        ensures
            r.0 == fadd(self.0, rhs as int),
    {
        Frame(self.0.wrapping_add(rhs))
    }

    /// Advances the frame in place by `n`, wrapping modulo the full range.
    pub fn add_assign(&mut self, rhs: u64)
        ensures
            final(self).0 == fadd(old(self).0, rhs as int),
    {
        self.0 = self.0.wrapping_add(rhs);
    }
}

impl From<u64> for Frame {
    fn from(value: u64) -> (r: Self) {
        Frame(value)
    }
}

impl vstd::std_specs::convert::FromSpecImpl<u64> for Frame {
    open spec fn obeys_from_spec() -> bool {
        true
    }

    open spec fn from_spec(value: u64) -> Self {
        Frame(value)
    }
}

impl Default for Frame {
    fn default() -> (r: Self)
        ensures
            r.0 == 0,
    {
        Frame(0)
    }
}

/// Distinct frames are always strictly ordered one way or the other:
/// circular comparison never calls both (or neither) of them greater.
pub proof fn lemma_circ_gt_antisymmetric(a: u64, b: u64)
    requires
        a != b,
    ensures
        circ_gt(a, b) <==> !circ_gt(b, a),
{
}

/// A frame a positive distance of at most half the range ahead of another
/// is strictly greater than it under circular comparison.
pub proof fn lemma_dist_implies_gt(a: u64, b: u64)
    requires
        1 <= frame_dist(a, b) <= HALF_MAX_VALUE,
    ensures
        circ_gt(b, a),
        !circ_gt(a, b),
{
}

/// Advancing a frame by `n` puts it exactly `n` steps ahead.
pub proof fn lemma_dist_fadd(a: u64, n: int)
    requires
        0 <= n < 0x1_0000_0000_0000_0000,
    ensures
        frame_dist(a, fadd(a, n)) == n,
{
}

/// The frame at distance `frame_dist(a, b)` ahead of `a` is `b` itself.
pub proof fn lemma_fadd_dist(a: u64, b: u64)
    ensures
        fadd(a, frame_dist(a, b) as int) == b,
{
}

/// Advancing by `m` and then `n` steps is advancing by `m + n` steps.
pub proof fn lemma_fadd_assoc(a: u64, m: int, n: int)
    requires
        0 <= m,
        0 <= n,
        m + n < 0x1_0000_0000_0000_0000,
    ensures
        fadd(fadd(a, m), n) == fadd(a, m + n),
{
}

/// Distances along a wrapping path add up, as long as the sum stays within
/// the representable range.
pub proof fn lemma_dist_additive(a: u64, b: u64, c: u64)
    requires
        frame_dist(a, b) + frame_dist(b, c) < 0x1_0000_0000_0000_0000,
    ensures
        frame_dist(a, c) == frame_dist(a, b) + frame_dist(b, c),
{
    lemma_fadd_dist(a, b);
    lemma_fadd_dist(b, c);
    lemma_fadd_assoc(a, frame_dist(a, b) as int, frame_dist(b, c) as int);
    lemma_dist_fadd(a, frame_dist(a, b) as int + frame_dist(b, c) as int);
}

} // verus!
