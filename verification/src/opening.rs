//! Opening one cluster: the queries at one evaluation point are folded into
//! a single polynomial and a single value, and the difference is divided by
//! the linear factor of the point. The commitment to the quotient is the
//! witness for the whole cluster.

use vstd::prelude::*;

use crate::commitment::{msm_spec, Params};
use crate::curve::CurveAffine;
use crate::domain::{EvaluationDomain, Rotation};
use crate::field::{all_valid, Scalar};
use crate::grouping::Cluster;
use crate::poly::{
    add_constant_spec, eval_polynomial, eval_spec, kate_division, lemma_division_exact, lemma_eval_linear,
    lemma_eval_valid, lemma_eval_zeros, lemma_vanishes, quotient_spec, scale_spec, sub_constant_spec,
    sum_spec, times_linear_spec, zeros_spec, Polynomial,
};
use crate::query::{ProverQuery, Query};

verus! {

/// A broken invariant: what was handed to the prover does not fit together.
#[derive(Clone, Copy, Debug, PartialEq, Eq, Structural)]
pub enum Violation {
    /// A query of a cluster is not at the cluster's rotation.
    RotationMismatch,
    /// A polynomial does not have as many coefficients as the domain has
    /// points.
    LengthMismatch,
    /// The combined polynomial, lowered by the combined value, does not
    /// vanish at the evaluation point: the scalars do not obey the ring
    /// laws.
    NonVanishing,
}

/// The coefficients of the polynomials of `queries`, query by query.
pub open spec fn polys_spec<C: CurveAffine>(queries: Seq<ProverQuery<'_, C>>) -> Seq<Seq<C::Scalar>> {
    Seq::new(queries.len(), |i: int| queries[i].poly@)
}

/// The polynomials folded into one with the challenge `v`: from the zero
/// polynomial with `n` coefficients, each polynomial in turn takes the sum so
/// far to `sum * v + polynomial`.
pub open spec fn fold_polys_spec<F: Scalar>(polys: Seq<Seq<F>>, v: F, n: nat) -> Seq<F>
    decreases polys.len(),
{
    if polys.len() == 0 {
        zeros_spec(n)
    } else {
        sum_spec(scale_spec(fold_polys_spec(polys.drop_last(), v, n), v), polys.last())
    }
}

/// The values of the polynomials at `z` folded into one with the challenge
/// `v`: from zero, each value in turn takes the sum so far to
/// `sum * v + value`.
pub open spec fn fold_evals_spec<F: Scalar>(polys: Seq<Seq<F>>, v: F, z: F) -> F
    decreases polys.len(),
{
    if polys.len() == 0 {
        F::zero_spec()
    } else {
        fold_evals_spec(polys.drop_last(), v, z).mul_spec(v).add_spec(eval_spec(polys.last(), z))
    }
}

/// Whether every query is at the rotation `rot`.
pub open spec fn consistent_spec<C: CurveAffine>(rot: Rotation, queries: Seq<ProverQuery<'_, C>>) -> bool {
    forall|i: int| 0 <= i < queries.len() ==> (#[trigger] queries[i]).rot == rot
}

/// Whether every polynomial has `n` coefficients.
pub open spec fn well_sized_spec<F>(polys: Seq<Seq<F>>, n: nat) -> bool {
    forall|i: int| 0 <= i < polys.len() ==> (#[trigger] polys[i]).len() == n
}

/// What folding a cluster comes to, with the challenge `v`, at the point `z`
/// and for polynomials of `n` coefficients: the folded polynomial and the
/// folded value, or the invariant of shape that is broken. A query off the
/// cluster's rotation counts before a polynomial of another length.
pub open spec fn fold_spec<C: CurveAffine>(
    n: nat,
    v: C::Scalar,
    z: C::Scalar,
    cluster: (Rotation, Seq<ProverQuery<'_, C>>),
) -> Result<(Seq<C::Scalar>, C::Scalar), Violation> {
    let polys = polys_spec(cluster.1);
    if !consistent_spec(cluster.0, cluster.1) {
        Err(Violation::RotationMismatch)
    } else if !well_sized_spec(polys, n) {
        Err(Violation::LengthMismatch)
    } else {
        Ok((fold_polys_spec(polys, v, n), fold_evals_spec(polys, v, z)))
    }
}

/// The folded polynomial, lowered by the folded value.
pub open spec fn adjusted_spec<F: Scalar>(polys: Seq<Seq<F>>, v: F, z: F, n: nat) -> Seq<F> {
    sub_constant_spec(fold_polys_spec(polys, v, n), fold_evals_spec(polys, v, z))
}

/// The witness polynomial: the quotient of the lowered polynomial by `X - z`.
pub open spec fn witness_spec<F: Scalar>(polys: Seq<Seq<F>>, v: F, z: F, n: nat) -> Seq<F> {
    quotient_spec(adjusted_spec(polys, v, z, n), z)
}

/// What opening a cluster at the point `z` comes to, with the challenge `v`,
/// base points `bases` and polynomials of `n` coefficients: the commitment to
/// the witness polynomial in affine form, or the invariant that is broken.
/// The violations of shape are those of folding; where the shape is sound,
/// the lowered polynomial has to vanish at `z`.
pub open spec fn opening_spec<C: CurveAffine>(
    bases: Seq<C>,
    n: nat,
    v: C::Scalar,
    z: C::Scalar,
    cluster: (Rotation, Seq<ProverQuery<'_, C>>),
) -> Result<C, Violation> {
    let polys = polys_spec(cluster.1);
    if !consistent_spec(cluster.0, cluster.1) {
        Err(Violation::RotationMismatch)
    } else if !well_sized_spec(polys, n) {
        Err(Violation::LengthMismatch)
    } else if eval_spec(adjusted_spec(polys, v, z, n), z) != C::Scalar::zero_spec() {
        Err(Violation::NonVanishing)
    } else {
        Ok(C::to_affine_spec(msm_spec(bases, witness_spec(polys, v, z, n))))
    }
}

/// Folds the queries of a cluster: returns the polynomials folded into one
/// with the challenge `v`, and their values at `z` folded in the same way.
/// `n` is the number of coefficients that every polynomial has to have.
pub fn fold_cluster<'a, C: CurveAffine>(
    n: usize,
    v: C::Scalar,
    z: C::Scalar,
    cluster: &Cluster<ProverQuery<'a, C>>,
) -> (r: Result<(Polynomial<C::Scalar>, C::Scalar), Violation>)
    ensures
        match r {
            Ok((poly, value)) => fold_spec(n as nat, v, z, cluster@) == Ok::<
                (Seq<C::Scalar>, C::Scalar),
                Violation,
            >((poly@, value)),
            Err(kind) => fold_spec(n as nat, v, z, cluster@) == Err::<
                (Seq<C::Scalar>, C::Scalar),
                Violation,
            >(kind),
        },
        r matches Ok((poly, _)) ==> poly@.len() == n,
{
    let rot = cluster.rot;
    let ghost polys = polys_spec(cluster.queries@);
    let mut poly_batch = Polynomial::<C::Scalar>::zero(n);
    let mut eval_batch = C::Scalar::zero();
    let mut sized = true;
    let mut i: usize = 0;
    while i < cluster.queries.len()
        invariant
            i <= cluster.queries.len(),
            rot == cluster.rot,
            polys == polys_spec(cluster.queries@),
            forall|j: int| 0 <= j < i ==> (#[trigger] cluster.queries@[j]).rot == rot,
            sized <==> well_sized_spec(polys.take(i as int), n as nat),
            poly_batch@.len() == n,
            sized ==> poly_batch@ == fold_polys_spec(polys.take(i as int), v, n as nat),
            sized ==> eval_batch == fold_evals_spec(polys.take(i as int), v, z),
        decreases cluster.queries.len() - i,
    {
        let query = &cluster.queries[i];
        if !(query.get_rot() == rot) {
            assert(cluster@.1[i as int].rot != cluster@.0);
            return Err(Violation::RotationMismatch);
        }
        assert(polys.take(i + 1).drop_last() =~= polys.take(i as int));
        assert(polys.take(i + 1).last() == query.poly@);
        let poly = query.get_commitment().poly;
        if sized && poly.len() == n {
            let eval = query.get_eval(z);
            poly_batch = poly_batch.scaled(v).plus(poly);
            eval_batch = eval_batch.mul(&v).add(&eval);
        } else {
            proof {
                if sized {
                    assert(polys.take(i + 1)[i as int].len() != n);
                } else {
                    let j = choose|j: int|
                        0 <= j < polys.take(i as int).len() && (#[trigger] polys.take(i as int)[j]).len()
                            != n;
                    assert(polys.take(i + 1)[j].len() != n);
                }
            }
            sized = false;
        }
        i += 1;
    }
    assert(polys.take(i as int) =~= polys);
    if !sized {
        return Err(Violation::LengthMismatch);
    }
    Ok((poly_batch, eval_batch))
}

/// Opens one cluster at the point that its rotation moves `x` to: folds its
/// queries with the challenge `v`, lowers the folded polynomial by the folded
/// value, divides by the linear factor of the point, and commits to the
/// quotient.
pub fn open_cluster<'a, C: CurveAffine>(
    params: &Params<C>,
    domain: &EvaluationDomain<C::Scalar>,
    x: C::Scalar,
    v: C::Scalar,
    cluster: &Cluster<ProverQuery<'a, C>>,
) -> (r: Result<C, Violation>)
    ensures
        r == opening_spec(
            params.bases(),
            params.size(),
            v,
            domain.rotate_spec(x, cluster.rot),
            cluster@,
        ),
{
    let n = params.n() as usize;
    let z = domain.rotate_omega(x, cluster.rot);
    let (poly_batch, eval_batch) = match fold_cluster(n, v, z, cluster) {
        Ok(folded) => folded,
        Err(kind) => {
            return Err(kind);
        },
    };
    let adjusted = poly_batch.minus_constant(eval_batch);
    if !eval_polynomial(adjusted.values.as_slice(), z).is_zero() {
        return Err(Violation::NonVanishing);
    }
    let witness_poly = Polynomial::new(kate_division(adjusted.values.as_slice(), z));
    let w = C::to_affine(&params.commit(&witness_poly));
    Ok(w)
}

/// Whether every coefficient of every polynomial is valid.
pub open spec fn all_polys_valid<F: Scalar>(polys: Seq<Seq<F>>) -> bool {
    forall|i: int| 0 <= i < polys.len() ==> all_valid(#[trigger] polys[i])
}

/// Polynomials of `n` valid coefficients fold, with a valid challenge, into
/// a polynomial of `n` valid coefficients.
pub proof fn lemma_fold_polys_valid<F: Scalar>(polys: Seq<Seq<F>>, v: F, n: nat)
    requires
        well_sized_spec(polys, n),
        all_polys_valid(polys),
        v.valid(),
    ensures
        fold_polys_spec(polys, v, n).len() == n,
        all_valid(fold_polys_spec(polys, v, n)),
    decreases polys.len(),
{
    F::lemma_identities_valid();
    if polys.len() > 0 {
        let earlier = polys.drop_last();
        assert forall|i: int| 0 <= i < earlier.len() implies (#[trigger] earlier[i]).len() == n
            && all_valid(earlier[i]) by {
            assert(earlier[i] == polys[i]);
        }
        lemma_fold_polys_valid(earlier, v, n);
        let sum = fold_polys_spec(earlier, v, n);
        let last = polys.last();
        assert(last == polys[polys.len() - 1]);
        let folded = fold_polys_spec(polys, v, n);
        assert forall|i: int| 0 <= i < folded.len() implies (#[trigger] folded[i]).valid() by {
            F::lemma_closed(sum[i], v);
            F::lemma_closed(sum[i].mul_spec(v), last[i]);
        }
    }
}

/// Folding commutes with evaluation: the value at `z` of the folded
/// polynomial is the fold of the values at `z`.
pub proof fn lemma_fold_eval<F: Scalar>(polys: Seq<Seq<F>>, v: F, z: F, n: nat)
    requires
        well_sized_spec(polys, n),
        all_polys_valid(polys),
        v.valid(),
        z.valid(),
    ensures
        eval_spec(fold_polys_spec(polys, v, n), z) == fold_evals_spec(polys, v, z),
        fold_evals_spec(polys, v, z).valid(),
    decreases polys.len(),
{
    lemma_fold_polys_valid(polys, v, n);
    lemma_eval_valid(fold_polys_spec(polys, v, n), z);
    if polys.len() == 0 {
        lemma_eval_zeros::<F>(n, z);
    } else {
        let earlier = polys.drop_last();
        assert forall|i: int| 0 <= i < earlier.len() implies (#[trigger] earlier[i]).len() == n
            && all_valid(earlier[i]) by {
            assert(earlier[i] == polys[i]);
        }
        assert(polys.last() == polys[polys.len() - 1]);
        lemma_fold_eval(earlier, v, z, n);
        lemma_fold_polys_valid(earlier, v, n);
        lemma_eval_linear(fold_polys_spec(earlier, v, n), v, polys.last(), z);
    }
}

/// Division is exact in every cluster. For polynomials of `n >= 1` valid
/// coefficients, a valid challenge `v` and a valid point `z`:
///
/// - the folded polynomial takes the folded value at `z`;
/// - lowered by that value, it vanishes at `z`;
/// - the witness polynomial times `X - z` is the lowered polynomial, with no
///   remainder;
/// - and raising that product by the folded value gives the folded
///   polynomial back.
pub proof fn lemma_cluster_division_exact<F: Scalar>(polys: Seq<Seq<F>>, v: F, z: F, n: nat)
    requires
        n >= 1,
        well_sized_spec(polys, n),
        all_polys_valid(polys),
        v.valid(),
        z.valid(),
    ensures
        eval_spec(fold_polys_spec(polys, v, n), z) == fold_evals_spec(polys, v, z),
        eval_spec(adjusted_spec(polys, v, z, n), z) == F::zero_spec(),
        times_linear_spec(witness_spec(polys, v, z, n), z) == adjusted_spec(polys, v, z, n),
        add_constant_spec(
            times_linear_spec(witness_spec(polys, v, z, n), z),
            fold_evals_spec(polys, v, z),
        ) == fold_polys_spec(polys, v, n),
{
    let folded = fold_polys_spec(polys, v, n);
    let value = fold_evals_spec(polys, v, z);
    let adjusted = adjusted_spec(polys, v, z, n);
    lemma_fold_polys_valid(polys, v, n);
    lemma_fold_eval(polys, v, z, n);
    lemma_vanishes(folded, z);
    F::lemma_closed(folded[0], value);
    assert(all_valid(adjusted)) by {
        assert forall|i: int| 0 <= i < adjusted.len() implies (#[trigger] adjusted[i]).valid() by {
            if i > 0 {
                assert(adjusted[i] == folded[i]);
            }
        }
    }
    lemma_division_exact(adjusted, z);
    F::lemma_sub_inverse(folded[0], value);
    assert(add_constant_spec(adjusted, value) =~= folded);
}

/// With valid scalars a cluster never fails to vanish: opening it gives a
/// point, or one of the two violations of shape.
pub proof fn lemma_opening_vanishes<C: CurveAffine>(
    bases: Seq<C>,
    n: nat,
    v: C::Scalar,
    z: C::Scalar,
    cluster: (Rotation, Seq<ProverQuery<'_, C>>),
)
    requires
        n >= 1,
        all_polys_valid(polys_spec(cluster.1)),
        v.valid(),
        z.valid(),
    ensures
        opening_spec(bases, n, v, z, cluster) != Err::<C, Violation>(Violation::NonVanishing),
{
    let polys = polys_spec(cluster.1);
    if well_sized_spec(polys, n) {
        lemma_cluster_division_exact(polys, v, z, n);
    }
}

} // verus!
