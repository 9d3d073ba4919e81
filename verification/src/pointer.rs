//! Handles by which two queries can be seen to read the same polynomial.

use vstd::prelude::*;
use vstd::std_specs::cmp::PartialEqSpecImpl;

use crate::curve::CurveAffine;
use crate::poly::Polynomial;

verus! {

/// A handle to a committed polynomial. Two handles are equal when they name
/// the same polynomial, which the key says: equal coefficients under
/// different keys make different handles.
pub struct PolynomialPointer<'a, C: CurveAffine> {
    /// The name of the polynomial: its place among the prover's polynomials.
    pub key: usize,
    /// The polynomial.
    pub poly: &'a Polynomial<C::Scalar>,
}

impl<'a, C: CurveAffine> Clone for PolynomialPointer<'a, C> {
    fn clone(&self) -> (r: Self)
        ensures
            r == *self,
    {
        *self
    }
}

impl<'a, C: CurveAffine> Copy for PolynomialPointer<'a, C> {

}

impl<'a, C: CurveAffine> PartialEq for PolynomialPointer<'a, C> {
    fn eq(&self, other: &Self) -> (r: bool) {
        self.key == other.key
    }
}

impl<'a, C: CurveAffine> PartialEqSpecImpl for PolynomialPointer<'a, C> {
    open spec fn obeys_eq_spec() -> bool {
        true
    }

    open spec fn eq_spec(&self, other: &Self) -> bool {
        self.key == other.key
    }
}

} // verus!
