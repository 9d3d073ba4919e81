//! Commitments to polynomials: the sum of the scheme's base points, each
//! multiplied by the coefficient of its degree.

use vstd::prelude::*;

use crate::curve::CurveAffine;
use crate::poly::Polynomial;

verus! {

/// The sum of `bases[i] * scalars[i]` over the indices of `scalars`, taken
/// from the lowest index up.
pub open spec fn msm_spec<C: CurveAffine>(bases: Seq<C>, scalars: Seq<C::Scalar>) -> C::Curve
    decreases scalars.len(),
{
    if scalars.len() == 0 {
        C::identity_spec()
    } else {
        C::sum_spec(
            msm_spec(bases, scalars.drop_last()),
            bases[scalars.len() - 1].times_spec(scalars.last()),
        )
    }
}

/// The parameters of the commitment scheme: one base point for each
/// coefficient of a polynomial over the domain. There is at least one.
pub struct Params<C: CurveAffine> {
    n: u64,
    g: Vec<C>,
}

impl<C: CurveAffine> Params<C> {
    #[verifier::type_invariant]
    spec fn well_formed(self) -> bool {
        self.n >= 1 && self.g@.len() == self.n
    }

    /// The base points, that of the constant term first.
    pub closed spec fn bases(self) -> Seq<C> {
        self.g@
    }

    /// The size of the domain: the number of coefficients of a polynomial.
    pub closed spec fn size(self) -> nat {
        self.n as nat
    }

    /// Makes the parameters of the given base points, if there is one at
    /// least.
    pub fn new(g: Vec<C>) -> (r: Option<Self>)
        ensures
            r is Some <==> g@.len() >= 1,
            r matches Some(params) ==> params.bases() == g@ && params.size() == g@.len(),
    {
        if g.len() >= 1 {
            Some(Params { n: g.len() as u64, g })
        } else {
            None
        }
    }

    /// Returns the size of the domain.
    pub fn n(&self) -> (r: u64)
        ensures
            r == self.size(),
            r >= 1,
            r == self.bases().len(),
            r <= usize::MAX,
    {
        proof {
            use_type_invariant(self);
        }
        let _ = self.g.len();
        self.n
    }

    /// Commits to `poly`, which has no more coefficients than there are base
    /// points.
    pub fn commit(&self, poly: &Polynomial<C::Scalar>) -> (r: C::Curve)
        requires
            poly@.len() <= self.size(),
        ensures
            r == msm_spec(self.bases(), poly@),
    {
        proof {
            use_type_invariant(self);
        }
        let len = poly.values.len();
        let mut acc = C::identity();
        let mut i: usize = 0;
        while i < len
            invariant
                len == poly@.len(),
                len <= self.g@.len(),
                i <= len,
                acc == msm_spec(self.g@, poly@.take(i as int)),
            decreases len - i,
        {
            assert(poly@.take(i + 1).drop_last() =~= poly@.take(i as int));
            let term = self.g[i].times(&poly.values[i]);
            acc = C::sum(&acc, &term);
            i += 1;
        }
        assert(poly@.take(len as int) =~= poly@);
        acc
    }
}

} // verus!
