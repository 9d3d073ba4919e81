//! Rotations of the evaluation point by powers of the domain's generator.

use vstd::prelude::*;

use crate::field::{lemma_pow_valid, pow_spec, Scalar};

verus! {

/// A shift of the evaluation point: the exponent of the domain's generator.
#[derive(Clone, Copy, Debug, PartialEq, Eq, Structural)]
pub struct Rotation(pub i32);

/// The part of an evaluation domain that turns rotations into points.
#[derive(Debug)]
pub struct EvaluationDomain<F> {
    /// The generator of the domain.
    pub omega: F,
    /// The inverse of the generator.
    pub omega_inv: F,
}

impl<F: Scalar> EvaluationDomain<F> {
    /// The factor that a rotation applies: `omega^r` for a rotation `r >= 0`,
    /// `omega_inv^(-r)` for `r < 0`.
    pub open spec fn shift_spec(self, rotation: Rotation) -> F {
        if rotation.0 >= 0 {
            pow_spec(self.omega, rotation.0 as nat)
        } else {
            pow_spec(self.omega_inv, (-rotation.0) as nat)
        }
    }

    /// `value` moved by `rotation`: `value` times the rotation's factor.
    pub open spec fn rotate_spec(self, value: F, rotation: Rotation) -> F {
        value.mul_spec(self.shift_spec(rotation))
    }

    /// Makes a domain of a generator and its inverse.
    pub fn new(omega: F, omega_inv: F) -> (r: Self)
        ensures
            r.omega == omega,
            r.omega_inv == omega_inv,
    {
        EvaluationDomain { omega, omega_inv }
    }

    /// Returns `value` moved by `rotation`.
    pub fn rotate_omega(&self, value: F, rotation: Rotation) -> (r: F)
        ensures
            r == self.rotate_spec(value, rotation),
    {
        let base = if rotation.0 >= 0 { self.omega } else { self.omega_inv };
        let count: u32 = if rotation.0 >= 0 {
            rotation.0 as u32
        } else {
            (-(rotation.0 as i64)) as u32
        };
        let mut factor = F::one();
        let mut i: u32 = 0;
        while i < count
            invariant
                i <= count,
                factor == pow_spec(base, i as nat),
            decreases count - i,
        {
            factor = factor.mul(&base);
            i += 1;
        }
        value.mul(&factor)
    }
}

/// The rotation by zero moves nothing.
pub proof fn lemma_rotate_zero<F: Scalar>(domain: EvaluationDomain<F>, value: F)
    requires
        value.valid(),
    ensures
        domain.rotate_spec(value, Rotation(0)) == value,
{
    F::lemma_mul_one(value);
}

/// A valid point, moved in a domain with valid generators, is valid.
pub proof fn lemma_rotate_valid<F: Scalar>(domain: EvaluationDomain<F>, value: F, rotation: Rotation)
    requires
        value.valid(),
        domain.omega.valid(),
        domain.omega_inv.valid(),
    ensures
        domain.rotate_spec(value, rotation).valid(),
{
    if rotation.0 >= 0 {
        lemma_pow_valid(domain.omega, rotation.0 as nat);
    } else {
        lemma_pow_valid(domain.omega_inv, (-rotation.0) as nat);
    }
    F::lemma_closed(value, domain.shift_spec(rotation));
}

} // verus!
