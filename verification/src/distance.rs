//! The bidirectional (cyclic) distance metric: the shorter arc between two
//! points on a fixed-width ring, implemented on top of wraparound
//! subtraction and total ordering.

use vstd::prelude::*;

verus! {

/// Wraparound subtraction on the ring of size `m`, for points already on
/// the ring.
pub open spec fn sub_mod(a: nat, b: nat, m: nat) -> nat {
    if a >= b {
        (a - b) as nat
    } else {
        (a + m - b) as nat
    }
}

/// The shorter of the two arcs between `a` and `b` on the ring of size `m`.
pub open spec fn cyclic_distance(a: nat, b: nat, m: nat) -> nat {
    if sub_mod(a, b, m) <= sub_mod(b, a, m) {
        sub_mod(a, b, m)
    } else {
        sub_mod(b, a, m)
    }
}

/// An element of a fixed-size cyclic ring, with wraparound subtraction and
/// total ordering: what the distance metric needs, so that it serves any
/// fixed-width type.
pub trait WrappingRing: Sized {
    /// The size of the ring the values live on.
    spec fn ring_size() -> nat;

    /// The mathematical value of this element.
    spec fn to_nat(&self) -> nat;

    /// Every element lies on the ring.
    proof fn lemma_on_ring(&self)
        ensures
            self.to_nat() < Self::ring_size(),
    ;

    /// Subtraction that wraps around at the ring boundary.
    fn wrapping_sub(&self, other: &Self) -> (r: Self)
        ensures
            r.to_nat() == sub_mod(self.to_nat(), other.to_nat(), Self::ring_size()),
    ;

    /// Whether this element's value is at most the other one's.
    fn le(&self, other: &Self) -> (r: bool)
        ensures
            r == (self.to_nat() <= other.to_nat()),
    ;
}

/// Bidirectional distance metric implemented on top of subtraction.
pub fn bidirectional_distance<T: WrappingRing>(a: &T, b: &T) -> (r: T)
    ensures
        r.to_nat() == cyclic_distance(a.to_nat(), b.to_nat(), T::ring_size()),
{
    let diff = a.wrapping_sub(b);
    let diff2 = b.wrapping_sub(a);
    // Find smaller diff between 2 directions.
    if diff.le(&diff2) {
        diff
    } else {
        diff2
    }
}

/// The distance does not depend on the order of its two arguments.
pub proof fn lemma_distance_symmetric(a: nat, b: nat, m: nat)
    ensures
        cyclic_distance(a, b, m) == cyclic_distance(b, a, m),
{
}

/// The distance from any point to itself is zero.
pub proof fn lemma_distance_self_zero(a: nat, m: nat)
    ensures
        cyclic_distance(a, a, m) == 0,
{
}

/// The shorter arc is never more than half the ring.
pub proof fn lemma_distance_at_most_half(a: nat, b: nat, m: nat)
    requires
        a < m,
        b < m,
    ensures
        2 * cyclic_distance(a, b, m) <= m,
{
}

/// On an even-sized ring, the distance between two points that are not
/// exactly opposite is at most one less than half the ring.
pub proof fn lemma_distance_below_half(a: nat, b: nat, m: nat)
    requires
        a < m,
        b < m,
        m % 2 == 0,
        sub_mod(a, b, m) != m / 2,
    ensures
        cyclic_distance(a, b, m) < m / 2,
{
}

} // verus!
