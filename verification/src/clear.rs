//! A commitment group in the clear: each point is given by its discrete
//! logarithm, a scalar. The group is the additive group of the scalars, so it
//! hides nothing; with base points `1, s, s^2, ...` a commitment to a
//! polynomial is the polynomial's value at `s`, and an opening can be confirmed
//! by plain arithmetic.

use vstd::prelude::*;

use crate::curve::CurveAffine;
use crate::field::Scalar;
use crate::fp::Fp;

verus! {

/// A group element, given by its discrete logarithm.
#[derive(Clone, Copy, Debug, PartialEq, Eq, Structural)]
pub struct ClearPoint {
    /// The discrete logarithm.
    pub log: Fp,
}

impl CurveAffine for ClearPoint {
    type Scalar = Fp;

    type Curve = ClearPoint;

    open spec fn identity_spec() -> ClearPoint {
        ClearPoint { log: Fp::zero_spec() }
    }

    open spec fn sum_spec(a: ClearPoint, b: ClearPoint) -> ClearPoint {
        ClearPoint { log: a.log.add_spec(b.log) }
    }

    open spec fn times_spec(self, s: Fp) -> ClearPoint {
        ClearPoint { log: self.log.mul_spec(s) }
    }

    open spec fn to_affine_spec(p: ClearPoint) -> ClearPoint {
        p
    }

    fn identity() -> (r: ClearPoint) {
        ClearPoint { log: Fp::zero() }
    }

    fn sum(a: &ClearPoint, b: &ClearPoint) -> (r: ClearPoint) {
        ClearPoint { log: a.log.add(&b.log) }
    }

    fn times(&self, s: &Fp) -> (r: ClearPoint) {
        ClearPoint { log: self.log.mul(s) }
    }

    fn to_affine(p: &ClearPoint) -> (r: ClearPoint) {
        *p
    }
}

} // verus!
