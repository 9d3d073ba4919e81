//! The prover: one witness commitment for each cluster of queries, written
//! to the transcript in the order of the clusters.

use vstd::prelude::*;

use crate::commitment::Params;
use crate::curve::CurveAffine;
use crate::domain::{lemma_rotate_valid, EvaluationDomain, Rotation};
use crate::field::{all_valid, Scalar};
use crate::grouping::{
    clusters_spec, cluster_views, construct_intermediate_sets, lemma_members_given, lemma_members_hold,
    lemma_members_rotation, lemma_rotations_cover, members_spec, rotations_spec,
};
use crate::opening::{
    all_polys_valid, consistent_spec, lemma_opening_vanishes, open_cluster, opening_spec, polys_spec,
    well_sized_spec, Violation,
};
use crate::query::{ProverQuery, Query};
use crate::transcript::{Event, TranscriptWrite};

verus! {

/// Why no proof was made.
#[derive(Debug)]
pub enum Error<E> {
    /// The transcript refused a point.
    Transcript(E),
    /// An invariant was found broken before any point was written.
    InvariantViolation(Violation),
}

/// What opening each of `clusters` comes to, each at the point that its
/// rotation moves `x` to.
pub open spec fn openings_spec<C: CurveAffine>(
    bases: Seq<C>,
    n: nat,
    domain: EvaluationDomain<C::Scalar>,
    x: C::Scalar,
    v: C::Scalar,
    clusters: Seq<(Rotation, Seq<ProverQuery<'_, C>>)>,
) -> Seq<Result<C, Violation>> {
    Seq::new(
        clusters.len(),
        |i: int| opening_spec(bases, n, v, domain.rotate_spec(x, clusters[i].0), clusters[i]),
    )
}

/// All the points of `outcomes` in their order, or the first violation among
/// them.
pub open spec fn gather_spec<C>(outcomes: Seq<Result<C, Violation>>) -> Result<Seq<C>, Violation>
    decreases outcomes.len(),
{
    if outcomes.len() == 0 {
        Ok(Seq::empty())
    } else {
        match gather_spec(outcomes.drop_last()) {
            Err(kind) => Err(kind),
            Ok(points) => match outcomes.last() {
                Ok(point) => Ok(points.push(point)),
                Err(kind) => Err(kind),
            },
        }
    }
}

/// The points of the proof for `queries`: the openings of their clusters in
/// the order of the clusters, or the first violation.
pub open spec fn proof_points_spec<C: CurveAffine>(
    bases: Seq<C>,
    n: nat,
    domain: EvaluationDomain<C::Scalar>,
    x: C::Scalar,
    v: C::Scalar,
    queries: Seq<ProverQuery<'_, C>>,
) -> Result<Seq<C>, Violation> {
    gather_spec(openings_spec(bases, n, domain, x, v, clusters_spec(queries)))
}

/// The writing of each of `points`, in their order.
pub open spec fn point_events<C: CurveAffine>(points: Seq<C>) -> Seq<Event<C>> {
    Seq::new(points.len(), |i: int| Event::Point(points[i]))
}

/// Whether `after` is `before` and then some of `points`, in order from the
/// first, but not all of them.
pub open spec fn cut_short<C: CurveAffine>(
    before: Seq<Event<C>>,
    points: Seq<C>,
    after: Seq<Event<C>>,
) -> bool {
    exists|k: int| 0 <= k < points.len() && after == before + #[trigger] point_events(points.take(k))
}

/// How a run of the prover that ends in `result` takes the transcript from
/// `before` to `after`. The challenge is the one that `before` gives next.
///
/// - On success the proof has its points, and the transcript has gained the
///   challenge and then each point, in order.
/// - On a violation the proof has that violation, and the transcript has
///   gained the challenge and nothing else.
/// - On a failed write the proof has its points, and the transcript has
///   gained the challenge and then the points before the one that was
///   refused, in order.
pub open spec fn proof_outcome<C: CurveAffine, T: TranscriptWrite<C>>(
    bases: Seq<C>,
    n: nat,
    domain: EvaluationDomain<C::Scalar>,
    x: C::Scalar,
    queries: Seq<ProverQuery<'_, C>>,
    before: T,
    result: Result<(), Error<T::Error>>,
    after: T,
) -> bool {
    let v = before.next_challenge();
    let squeezed = before.events().push(Event::Challenge(v));
    match result {
        Ok(()) => match proof_points_spec(bases, n, domain, x, v, queries) {
            Ok(points) => after.events() == squeezed + point_events(points),
            Err(_) => false,
        },
        Err(Error::InvariantViolation(kind)) => {
            &&& proof_points_spec(bases, n, domain, x, v, queries) == Err::<Seq<C>, Violation>(kind)
            &&& after.events() == squeezed
        },
        Err(Error::Transcript(_)) => match proof_points_spec(bases, n, domain, x, v, queries) {
            Ok(points) => cut_short(squeezed, points, after.events()),
            Err(_) => false,
        },
    }
}

/// Creates a multi-opening proof: squeezes one challenge out of the
/// transcript, groups the queries by rotation, opens each cluster, and writes
/// the openings to the transcript in the order of the clusters. Nothing is
/// written unless every cluster can be opened; the first write that fails
/// ends the run.
pub fn create_proof<'a, C: CurveAffine, T: TranscriptWrite<C>>(
    params: &Params<C>,
    domain: &EvaluationDomain<C::Scalar>,
    x: C::Scalar,
    transcript: &mut T,
    queries: &[ProverQuery<'a, C>],
) -> (result: Result<(), Error<T::Error>>)
    ensures
        proof_outcome(
            params.bases(),
            params.size(),
            *domain,
            x,
            queries@,
            *old(transcript),
            result,
            *final(transcript),
        ),
        result matches Err(Error::InvariantViolation(kind)) ==> kind != Violation::RotationMismatch,
{
    let ghost bases = params.bases();
    let ghost n = params.size();
    let v = transcript.squeeze_challenge_scalar();
    let ghost squeezed = transcript.events();
    let clusters = construct_intermediate_sets(queries);
    let ghost outcomes = openings_spec(bases, n, *domain, x, v, clusters_spec(queries@));
    let mut points: Vec<C> = Vec::new();
    let mut i: usize = 0;
    while i < clusters.len()
        invariant
            i <= clusters.len(),
            bases == params.bases(),
            n == params.size(),
            cluster_views(clusters@) == clusters_spec(queries@),
            outcomes == openings_spec(bases, n, *domain, x, v, clusters_spec(queries@)),
            gather_spec(outcomes.take(i as int)) == Ok::<Seq<C>, Violation>(points@),
            v == old(transcript).next_challenge(),
            squeezed == old(transcript).events().push(Event::Challenge(v)),
            transcript.events() == squeezed,
        decreases clusters.len() - i,
    {
        assert(outcomes.take(i + 1).drop_last() =~= outcomes.take(i as int));
        assert(cluster_views(clusters@)[i as int] == clusters@[i as int]@);
        let opened = open_cluster(params, domain, x, v, &clusters[i]);
        assert(opened == outcomes[i as int]);
        match opened {
            Ok(w) => {
                points.push(w);
            },
            Err(kind) => {
                proof {
                    lemma_gather_first(outcomes, i as int);
                    lemma_proof_rotations_agree(bases, n, *domain, x, v, queries@);
                }
                return Err(Error::InvariantViolation(kind));
            },
        }
        i += 1;
    }
    assert(outcomes.take(i as int) =~= outcomes);
    let mut k: usize = 0;
    while k < points.len()
        invariant
            k <= points.len(),
            bases == params.bases(),
            n == params.size(),
            outcomes == openings_spec(bases, n, *domain, x, v, clusters_spec(queries@)),
            gather_spec(outcomes) == Ok::<Seq<C>, Violation>(points@),
            v == old(transcript).next_challenge(),
            squeezed == old(transcript).events().push(Event::Challenge(v)),
            transcript.events() == squeezed + point_events(points@.take(k as int)),
        decreases points.len() - k,
    {
        match transcript.write_point(points[k]) {
            Ok(()) => {},
            Err(e) => {
                proof {
                    let written = k as int;
                    assert(0 <= written < points@.len() && transcript.events() == squeezed
                        + point_events(points@.take(written)));
                    assert(cut_short(squeezed, points@, transcript.events()));
                }
                return Err(Error::Transcript(e));
            },
        }
        assert(squeezed + point_events(points@.take(k + 1)) =~= (squeezed + point_events(
            points@.take(k as int),
        )).push(Event::Point(points@[k as int])));
        k += 1;
    }
    assert(points@.take(k as int) =~= points@);
    Ok(())
}

/// The proof is a function of what the prover is given: two successful runs
/// on the same parameters, domain, point and queries, from transcripts with
/// the same past and the same next challenge, leave the same operations on
/// both transcripts; and a violation in one run is the same violation in the
/// other.
pub proof fn lemma_proof_deterministic<C: CurveAffine, T: TranscriptWrite<C>>(
    bases: Seq<C>,
    n: nat,
    domain: EvaluationDomain<C::Scalar>,
    x: C::Scalar,
    queries: Seq<ProverQuery<'_, C>>,
    first_before: T,
    first_result: Result<(), Error<T::Error>>,
    first_after: T,
    second_before: T,
    second_result: Result<(), Error<T::Error>>,
    second_after: T,
)
    requires
        proof_outcome(bases, n, domain, x, queries, first_before, first_result, first_after),
        proof_outcome(bases, n, domain, x, queries, second_before, second_result, second_after),
        first_before.events() == second_before.events(),
        first_before.next_challenge() == second_before.next_challenge(),
    ensures
        first_result is Ok && second_result is Ok ==> first_after.events() == second_after.events(),
        first_result matches Err(Error::InvariantViolation(kind)) ==> second_result == Err::<
            (),
            Error<T::Error>,
        >(Error::InvariantViolation(kind)) && first_after.events() == second_after.events(),
{
}

/// One challenge, then one point for each cluster. Every run keeps what the
/// transcript held and adds the challenge that the transcript gave, once;
/// whatever follows the challenge is the opening of a cluster, in the order
/// of the clusters. A successful run adds the openings of all the clusters,
/// a run that finds a violation adds none, and a run that ends in a failed
/// write adds fewer than there are clusters.
pub proof fn lemma_proof_run<C: CurveAffine, T: TranscriptWrite<C>>(
    bases: Seq<C>,
    n: nat,
    domain: EvaluationDomain<C::Scalar>,
    x: C::Scalar,
    queries: Seq<ProverQuery<'_, C>>,
    before: T,
    result: Result<(), Error<T::Error>>,
    after: T,
)
    requires
        proof_outcome(bases, n, domain, x, queries, before, result, after),
    ensures
        after.events().len() >= before.events().len() + 1,
        after.events().take(before.events().len() as int) == before.events(),
        after.events()[before.events().len() as int] == Event::<C>::Challenge(
            before.next_challenge(),
        ),
        forall|i: int|
            0 <= i < after.events().len() - before.events().len() - 1 ==> i < clusters_spec(
                queries,
            ).len() && (#[trigger] openings_spec(
                bases,
                n,
                domain,
                x,
                before.next_challenge(),
                clusters_spec(queries),
            )[i]) == Ok::<C, Violation>(after.events()[before.events().len() + 1 + i]->Point_0)
                && after.events()[before.events().len() + 1 + i] is Point,
        result is Ok ==> after.events().len() == before.events().len() + 1 + clusters_spec(
            queries,
        ).len(),
        result matches Err(Error::InvariantViolation(_)) ==> after.events().len()
            == before.events().len() + 1,
        result matches Err(Error::Transcript(_)) ==> after.events().len() < before.events().len() + 1
            + clusters_spec(queries).len(),
{
    let v = before.next_challenge();
    let outcomes = openings_spec(bases, n, domain, x, v, clusters_spec(queries));
    assert(after.events().take(before.events().len() as int) =~= before.events());
    if gather_spec(outcomes) is Ok {
        lemma_gather_all(outcomes);
    }
}

/// Grouping never puts a query into a cluster of another rotation: the
/// prover reports no such violation, whatever the queries are.
pub proof fn lemma_proof_rotations_agree<C: CurveAffine>(
    bases: Seq<C>,
    n: nat,
    domain: EvaluationDomain<C::Scalar>,
    x: C::Scalar,
    v: C::Scalar,
    queries: Seq<ProverQuery<'_, C>>,
)
    ensures
        proof_points_spec(bases, n, domain, x, v, queries) != Err::<Seq<C>, Violation>(
            Violation::RotationMismatch,
        ),
{
    let clusters = clusters_spec(queries);
    let outcomes = openings_spec(bases, n, domain, x, v, clusters);
    if gather_spec(outcomes) is Err {
        lemma_gather_violation(outcomes);
        let i = choose|i: int|
            0 <= i < outcomes.len() && #[trigger] outcomes[i] == Err::<C, Violation>(
                gather_spec(outcomes)->Err_0,
            );
        lemma_members_rotation(queries, rotations_spec(queries)[i]);
        assert(consistent_spec(clusters[i].0, clusters[i].1));
    }
}

/// Whether the prover's inputs are valid scalars throughout: the point, the
/// challenge, the generators of the domain and every coefficient.
pub open spec fn valid_inputs<C: CurveAffine>(
    domain: EvaluationDomain<C::Scalar>,
    x: C::Scalar,
    v: C::Scalar,
    queries: Seq<ProverQuery<'_, C>>,
) -> bool {
    &&& domain.omega.valid()
    &&& domain.omega_inv.valid()
    &&& x.valid()
    &&& v.valid()
    &&& all_polys_valid(polys_spec(queries))
}

/// With valid scalars the proof has its points exactly when every
/// polynomial has as many coefficients as the domain has points; where one
/// has not, the violation is that of length.
pub proof fn lemma_proof_exists<C: CurveAffine>(
    bases: Seq<C>,
    n: nat,
    domain: EvaluationDomain<C::Scalar>,
    x: C::Scalar,
    v: C::Scalar,
    queries: Seq<ProverQuery<'_, C>>,
)
    requires
        n >= 1,
        valid_inputs(domain, x, v, queries),
    ensures
        proof_points_spec(bases, n, domain, x, v, queries) is Ok <==> well_sized_spec(
            polys_spec(queries),
            n,
        ),
        proof_points_spec(bases, n, domain, x, v, queries) is Err ==> proof_points_spec(
            bases,
            n,
            domain,
            x,
            v,
            queries,
        ) == Err::<Seq<C>, Violation>(Violation::LengthMismatch),
{
    let rots = rotations_spec(queries);
    let clusters = clusters_spec(queries);
    let outcomes = openings_spec(bases, n, domain, x, v, clusters);
    // in every cluster the rotations agree and the scalars are valid
    assert forall|i: int| 0 <= i < clusters.len() implies consistent_spec(clusters[i].0, clusters[i].1)
        && all_polys_valid(polys_spec(clusters[i].1)) && (#[trigger] outcomes[i]) != Err::<
        C,
        Violation,
    >(Violation::NonVanishing) by {
        let members = members_spec(queries, rots[i]);
        lemma_members_rotation(queries, rots[i]);
        assert forall|j: int| 0 <= j < members.len() implies all_valid(
            #[trigger] polys_spec(members)[j],
        ) by {
            lemma_members_given(queries, rots[i], j);
            let k = choose|k: int| 0 <= k < queries.len() && queries[k] == members[j];
            assert(polys_spec(queries)[k] == polys_spec(members)[j]);
        }
        lemma_rotate_valid(domain, x, rots[i]);
        lemma_opening_vanishes(bases, n, v, domain.rotate_spec(x, rots[i]), clusters[i]);
    }
    if well_sized_spec(polys_spec(queries), n) {
        assert forall|i: int| 0 <= i < outcomes.len() implies (#[trigger] outcomes[i]) is Ok by {
            let members = members_spec(queries, rots[i]);
            assert forall|j: int| 0 <= j < members.len() implies (#[trigger] polys_spec(
                members,
            )[j]).len() == n by {
                lemma_members_given(queries, rots[i], j);
                let k = choose|k: int| 0 <= k < queries.len() && queries[k] == members[j];
                assert(polys_spec(queries)[k] == polys_spec(members)[j]);
            }
        }
        lemma_gather_points(outcomes);
    } else {
        let k = choose|k: int|
            0 <= k < polys_spec(queries).len() && (#[trigger] polys_spec(queries)[k]).len() != n;
        lemma_rotations_cover(queries, k);
        let i = choose|i: int| 0 <= i < rots.len() && rots[i] == queries[k].rot_spec();
        lemma_members_hold(queries, k);
        let members = members_spec(queries, rots[i]);
        let j = choose|j: int| 0 <= j < members.len() && members[j] == queries[k];
        assert(polys_spec(members)[j].len() != n);
        assert(outcomes[i] is Err);
        if gather_spec(outcomes) is Ok {
            lemma_gather_all(outcomes);
        }
    }
    if gather_spec(outcomes) is Err {
        lemma_gather_violation(outcomes);
    }
}

/// A violation at `k`, with none before it, is the first violation of all.
pub proof fn lemma_gather_first<C>(outcomes: Seq<Result<C, Violation>>, k: int)
    requires
        0 <= k < outcomes.len(),
        gather_spec(outcomes.take(k)) is Ok,
        outcomes[k] is Err,
    ensures
        gather_spec(outcomes) == Err::<Seq<C>, Violation>(outcomes[k]->Err_0),
    decreases outcomes.len(),
{
    if k == outcomes.len() - 1 {
        assert(outcomes.drop_last() =~= outcomes.take(k));
    } else {
        assert(outcomes.drop_last().take(k) =~= outcomes.take(k));
        lemma_gather_first(outcomes.drop_last(), k);
    }
}

/// Where all the points are gathered, there is one for each outcome, and it
/// is that outcome.
pub proof fn lemma_gather_all<C>(outcomes: Seq<Result<C, Violation>>)
    requires
        gather_spec(outcomes) is Ok,
    ensures
        gather_spec(outcomes)->Ok_0.len() == outcomes.len(),
        forall|i: int|
            0 <= i < outcomes.len() ==> #[trigger] outcomes[i] == Ok::<C, Violation>(
                gather_spec(outcomes)->Ok_0[i],
            ),
    decreases outcomes.len(),
{
    if outcomes.len() > 0 {
        lemma_gather_all(outcomes.drop_last());
        let points = gather_spec(outcomes)->Ok_0;
        assert forall|i: int| 0 <= i < outcomes.len() implies #[trigger] outcomes[i] == Ok::<
            C,
            Violation,
        >(points[i]) by {
            if i < outcomes.len() - 1 {
                assert(outcomes.drop_last()[i] == outcomes[i]);
            }
        }
    }
}

/// A gathered violation is the violation of one of the outcomes.
pub proof fn lemma_gather_violation<C>(outcomes: Seq<Result<C, Violation>>)
    requires
        gather_spec(outcomes) is Err,
    ensures
        exists|i: int|
            0 <= i < outcomes.len() && #[trigger] outcomes[i] == Err::<C, Violation>(
                gather_spec(outcomes)->Err_0,
            ),
    decreases outcomes.len(),
{
    if outcomes.len() > 0 {
        if gather_spec(outcomes.drop_last()) is Err {
            lemma_gather_violation(outcomes.drop_last());
            let i = choose|i: int|
                0 <= i < outcomes.drop_last().len() && #[trigger] outcomes.drop_last()[i] == Err::<
                    C,
                    Violation,
                >(gather_spec(outcomes.drop_last())->Err_0);
            assert(outcomes[i] == outcomes.drop_last()[i]);
        } else {
            assert(outcomes[outcomes.len() - 1] == outcomes.last());
        }
    }
}

/// Outcomes that are all points are gathered as points.
pub proof fn lemma_gather_points<C>(outcomes: Seq<Result<C, Violation>>)
    requires
        forall|i: int| 0 <= i < outcomes.len() ==> (#[trigger] outcomes[i]) is Ok,
    ensures
        gather_spec(outcomes) is Ok,
    decreases outcomes.len(),
{
    if outcomes.len() > 0 {
        assert forall|i: int| 0 <= i < outcomes.drop_last().len() implies (#[trigger] outcomes.drop_last()[i]) is Ok by {
            assert(outcomes.drop_last()[i] == outcomes[i]);
        }
        lemma_gather_points(outcomes.drop_last());
        assert(outcomes.last() == outcomes[outcomes.len() - 1]);
    }
}

} // verus!
