//! The group in which commitments live, as far as the prover uses it.

use vstd::prelude::*;

use crate::field::Scalar;

verus! {

/// A point of a commitment group in affine form, with the group's scalars
/// and its projective form.
///
/// Each operation has a mathematical counterpart that the executable method
/// computes. The prover relies on no law of the group: the counterparts serve
/// to say which point a computation yields.
pub trait CurveAffine: Sized + Copy {
    /// The scalars that multiply points.
    type Scalar: Scalar;

    /// The projective form, in which sums are taken.
    type Curve: Copy;

    /// The neutral element.
    spec fn identity_spec() -> Self::Curve;

    /// The sum of two points.
    spec fn sum_spec(a: Self::Curve, b: Self::Curve) -> Self::Curve;

    /// The multiple of this point by `s`.
    spec fn times_spec(self, s: Self::Scalar) -> Self::Curve;

    /// The affine form of `p`.
    spec fn to_affine_spec(p: Self::Curve) -> Self;

    /// Returns the neutral element.
    fn identity() -> (r: Self::Curve)
        ensures
            r == Self::identity_spec(),
    ;

    /// Returns `a + b`.
    fn sum(a: &Self::Curve, b: &Self::Curve) -> (r: Self::Curve)
        ensures
            r == Self::sum_spec(*a, *b),
    ;

    /// Returns `self * s`.
    fn times(&self, s: &Self::Scalar) -> (r: Self::Curve)
        ensures
            r == self.times_spec(*s),
    ;

    /// Returns `p` in affine form.
    fn to_affine(p: &Self::Curve) -> (r: Self)
        ensures
            r == Self::to_affine_spec(*p),
    ;
}

} // verus!
