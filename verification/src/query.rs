//! Queries: claims that a polynomial is to be opened at a rotation of the
//! evaluation point.

use vstd::prelude::*;

use crate::curve::CurveAffine;
use crate::domain::Rotation;
use crate::pointer::PolynomialPointer;
use crate::poly::{eval_polynomial, eval_spec, Polynomial};

verus! {

/// What every kind of query can do: tell its rotation, give the value that it
/// claims at a point, and hand out a handle to what it is about.
pub trait Query: Sized {
    /// The scalars of the values.
    type Scalar;

    /// The handle to what is queried.
    type Commitment;

    /// The rotation of the query.
    spec fn rot_spec(&self) -> Rotation;

    /// The value of the query at `point`.
    spec fn eval_at_spec(&self, point: Self::Scalar) -> Self::Scalar;

    /// The handle of the query.
    spec fn commitment_spec(&self) -> Self::Commitment;

    /// Returns the rotation of the query.
    fn get_rot(&self) -> (r: Rotation)
        ensures
            r == self.rot_spec(),
    ;

    /// Returns the value of the query at `point`.
    fn get_eval(&self, point: Self::Scalar) -> (r: Self::Scalar)
        ensures
            r == self.eval_at_spec(point),
    ;

    /// Returns the handle of the query.
    fn get_commitment(&self) -> (r: Self::Commitment)
        ensures
            r == self.commitment_spec(),
    ;
}

/// A prover's query: the polynomial named `key`, to be opened at the
/// rotation `rot`. The prover holds the polynomial, so the value of the query
/// at a point is the polynomial's value there.
pub struct ProverQuery<'a, C: CurveAffine> {
    /// The name of the polynomial: its place among the prover's polynomials.
    pub key: usize,
    /// The rotation at which the polynomial is opened.
    pub rot: Rotation,
    /// The polynomial.
    pub poly: &'a Polynomial<C::Scalar>,
}

impl<'a, C: CurveAffine> Clone for ProverQuery<'a, C> {
    fn clone(&self) -> (r: Self)
        ensures
            r == *self,
    {
        *self
    }
}

impl<'a, C: CurveAffine> Copy for ProverQuery<'a, C> {

}

impl<'a, C: CurveAffine> Query for ProverQuery<'a, C> {
    type Scalar = C::Scalar;

    type Commitment = PolynomialPointer<'a, C>;

    open spec fn rot_spec(&self) -> Rotation {
        self.rot
    }

    open spec fn eval_at_spec(&self, point: C::Scalar) -> C::Scalar {
        eval_spec(self.poly@, point)
    }

    open spec fn commitment_spec(&self) -> PolynomialPointer<'a, C> {
        PolynomialPointer { key: self.key, poly: self.poly }
    }

    fn get_rot(&self) -> (r: Rotation) {
        self.rot
    }

    fn get_eval(&self, point: C::Scalar) -> (r: C::Scalar) {
        eval_polynomial(self.poly.values.as_slice(), point)
    }

    fn get_commitment(&self) -> (r: PolynomialPointer<'a, C>) {
        PolynomialPointer { key: self.key, poly: self.poly }
    }
}

} // verus!
