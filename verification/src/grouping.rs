//! Grouping of queries into clusters, one for each rotation: all the queries
//! of a cluster are opened at one point, by one witness.

use vstd::multiset::Multiset;
use vstd::prelude::*;

use crate::domain::Rotation;
use crate::query::Query;

verus! {

/// The queries that share one rotation, in the order in which they were given.
pub struct Cluster<Q> {
    /// The rotation of every query of the cluster.
    pub rot: Rotation,
    /// The queries.
    pub queries: Vec<Q>,
}

impl<Q> View for Cluster<Q> {
    type V = (Rotation, Seq<Q>);

    open spec fn view(&self) -> (Rotation, Seq<Q>) {
        (self.rot, self.queries@)
    }
}

/// The clusters of a vector, each as its rotation and its queries.
pub open spec fn cluster_views<Q>(clusters: Seq<Cluster<Q>>) -> Seq<(Rotation, Seq<Q>)> {
    Seq::new(clusters.len(), |i: int| clusters[i]@)
}

/// The rotations of `queries`, each once, in the order in which they first
/// occur.
pub open spec fn rotations_spec<Q: Query>(queries: Seq<Q>) -> Seq<Rotation>
    decreases queries.len(),
{
    if queries.len() == 0 {
        Seq::empty()
    } else {
        let earlier = rotations_spec(queries.drop_last());
        let rot = queries.last().rot_spec();
        if earlier.contains(rot) {
            earlier
        } else {
            earlier.push(rot)
        }
    }
}

/// The queries at the rotation `rot` among `queries`, in their order.
pub open spec fn members_spec<Q: Query>(queries: Seq<Q>, rot: Rotation) -> Seq<Q>
    decreases queries.len(),
{
    if queries.len() == 0 {
        Seq::empty()
    } else {
        let earlier = members_spec(queries.drop_last(), rot);
        if queries.last().rot_spec() == rot {
            earlier.push(queries.last())
        } else {
            earlier
        }
    }
}

/// For each of `rots`, the cluster of `queries` at that rotation.
pub open spec fn clusters_over<Q: Query>(queries: Seq<Q>, rots: Seq<Rotation>) -> Seq<
    (Rotation, Seq<Q>),
> {
    Seq::new(rots.len(), |i: int| (rots[i], members_spec(queries, rots[i])))
}

/// The clusters of `queries`: one for each rotation that occurs, in the order
/// in which the rotations first occur, each with the queries at its rotation
/// in the order in which they were given.
pub open spec fn clusters_spec<Q: Query>(queries: Seq<Q>) -> Seq<(Rotation, Seq<Q>)> {
    clusters_over(queries, rotations_spec(queries))
}

/// All the queries of `clusters` together, each as often as it occurs.
pub open spec fn union_spec<Q>(clusters: Seq<(Rotation, Seq<Q>)>) -> Multiset<Q>
    decreases clusters.len(),
{
    if clusters.len() == 0 {
        Multiset::empty()
    } else {
        union_spec(clusters.drop_last()).add(clusters.last().1.to_multiset())
    }
}

/// Returns the rotations of `queries`, each once, in the order in which they
/// first occur.
fn distinct_rotations<Q: Query>(queries: &[Q]) -> (rots: Vec<Rotation>)
    ensures
        rots@ == rotations_spec(queries@),
{
    let mut rots: Vec<Rotation> = Vec::new();
    let mut k: usize = 0;
    while k < queries.len()
        invariant
            k <= queries.len(),
            rots@ == rotations_spec(queries@.take(k as int)),
        decreases queries.len() - k,
    {
        let rot = queries[k].get_rot();
        let mut seen = false;
        let mut i: usize = 0;
        while i < rots.len()
            invariant
                i <= rots.len(),
                seen <==> exists|j: int| 0 <= j < i && rots@[j] == rot,
            decreases rots.len() - i,
        {
            if rots[i] == rot {
                seen = true;
            }
            i += 1;
        }
        assert(queries@.take(k + 1).drop_last() =~= queries@.take(k as int));
        assert(seen <==> rots@.contains(rot));
        if !seen {
            rots.push(rot);
        }
        k += 1;
    }
    assert(queries@.take(k as int) =~= queries@);
    rots
}

/// Returns the queries at the rotation `rot` among `queries`, in their order.
fn collect_members<Q: Query + Copy>(queries: &[Q], rot: Rotation) -> (members: Vec<Q>)
    ensures
        members@ == members_spec(queries@, rot),
{
    let mut members: Vec<Q> = Vec::new();
    let mut k: usize = 0;
    while k < queries.len()
        invariant
            k <= queries.len(),
            members@ == members_spec(queries@.take(k as int), rot),
        decreases queries.len() - k,
    {
        assert(queries@.take(k + 1).drop_last() =~= queries@.take(k as int));
        if queries[k].get_rot() == rot {
            members.push(queries[k]);
        }
        k += 1;
    }
    assert(queries@.take(k as int) =~= queries@);
    members
}

/// Groups `queries` into clusters, one for each rotation.
pub fn construct_intermediate_sets<Q: Query + Copy>(queries: &[Q]) -> (clusters: Vec<Cluster<Q>>)
    ensures
        cluster_views(clusters@) == clusters_spec(queries@),
{
    let rots = distinct_rotations(queries);
    let mut clusters: Vec<Cluster<Q>> = Vec::new();
    let mut i: usize = 0;
    while i < rots.len()
        invariant
            i <= rots.len(),
            rots@ == rotations_spec(queries@),
            cluster_views(clusters@) =~= clusters_over(queries@, rots@.take(i as int)),
        decreases rots.len() - i,
    {
        let rot = rots[i];
        let members = collect_members(queries, rot);
        let ghost before = clusters@;
        clusters.push(Cluster { rot, queries: members });
        assert(cluster_views(clusters@) =~= cluster_views(before).push((rot, members@)));
        assert(rots@.take(i + 1) =~= rots@.take(i as int).push(rot));
        i += 1;
    }
    assert(rots@.take(i as int) =~= rots@);
    clusters
}

/// No rotation heads two clusters.
pub proof fn lemma_rotations_distinct<Q: Query>(queries: Seq<Q>)
    ensures
        rotations_spec(queries).no_duplicates(),
    decreases queries.len(),
{
    if queries.len() > 0 {
        lemma_rotations_distinct(queries.drop_last());
    }
}

/// The rotation of every query heads a cluster.
pub proof fn lemma_rotations_cover<Q: Query>(queries: Seq<Q>, k: int)
    requires
        0 <= k < queries.len(),
    ensures
        rotations_spec(queries).contains(queries[k].rot_spec()),
    decreases queries.len(),
{
    let earlier = rotations_spec(queries.drop_last());
    let rot = queries.last().rot_spec();
    if k < queries.len() - 1 {
        lemma_rotations_cover(queries.drop_last(), k);
        let j = choose|j: int| 0 <= j < earlier.len() && earlier[j] == queries[k].rot_spec();
        if !earlier.contains(rot) {
            assert(earlier.push(rot)[j] == queries[k].rot_spec());
        }
    } else {
        if !earlier.contains(rot) {
            assert(earlier.push(rot)[earlier.len() as int] == rot);
        }
    }
}

/// Every rotation that heads a cluster is the rotation of a query.
pub proof fn lemma_rotations_occur<Q: Query>(queries: Seq<Q>, i: int)
    requires
        0 <= i < rotations_spec(queries).len(),
    ensures
        exists|k: int| 0 <= k < queries.len() && queries[k].rot_spec() == rotations_spec(queries)[i],
    decreases queries.len(),
{
    let earlier = rotations_spec(queries.drop_last());
    if i < earlier.len() {
        lemma_rotations_occur(queries.drop_last(), i);
        let k = choose|k: int|
            0 <= k < queries.drop_last().len() && queries.drop_last()[k].rot_spec() == earlier[i];
        assert(queries[k].rot_spec() == rotations_spec(queries)[i]);
    } else {
        assert(queries[queries.len() - 1].rot_spec() == rotations_spec(queries)[i]);
    }
}

/// The members of a cluster are queries at the cluster's rotation.
pub proof fn lemma_members_rotation<Q: Query>(queries: Seq<Q>, rot: Rotation)
    ensures
        forall|j: int|
            0 <= j < members_spec(queries, rot).len() ==> (#[trigger] members_spec(
                queries,
                rot,
            )[j]).rot_spec() == rot,
    decreases queries.len(),
{
    if queries.len() > 0 {
        lemma_members_rotation(queries.drop_last(), rot);
        let members = members_spec(queries, rot);
        let earlier = members_spec(queries.drop_last(), rot);
        assert forall|j: int| 0 <= j < members.len() implies (#[trigger] members[j]).rot_spec()
            == rot by {
            if j < earlier.len() {
                assert(members[j] == earlier[j]);
            }
        }
    }
}

/// Every member of a cluster is one of the queries.
pub proof fn lemma_members_given<Q: Query>(queries: Seq<Q>, rot: Rotation, j: int)
    requires
        0 <= j < members_spec(queries, rot).len(),
    ensures
        queries.contains(members_spec(queries, rot)[j]),
    decreases queries.len(),
{
    let earlier = members_spec(queries.drop_last(), rot);
    if j < earlier.len() {
        lemma_members_given(queries.drop_last(), rot, j);
        let k = choose|k: int| 0 <= k < queries.drop_last().len() && queries.drop_last()[k] == earlier[j];
        assert(queries[k] == members_spec(queries, rot)[j]);
    } else {
        assert(queries[queries.len() - 1] == members_spec(queries, rot)[j]);
    }
}

/// A rotation that heads no cluster has no members.
pub proof fn lemma_members_absent<Q: Query>(queries: Seq<Q>, rot: Rotation)
    requires
        !rotations_spec(queries).contains(rot),
    ensures
        members_spec(queries, rot) == Seq::<Q>::empty(),
    decreases queries.len(),
{
    if queries.len() > 0 {
        lemma_rotations_cover(queries, queries.len() - 1);
        let earlier = rotations_spec(queries.drop_last());
        if earlier.contains(rot) {
            let j = choose|j: int| 0 <= j < earlier.len() && earlier[j] == rot;
            assert(rotations_spec(queries)[j] == rot);
        }
        lemma_members_absent(queries.drop_last(), rot);
    }
}

/// One more query adds itself to the union over clusters whose rotations
/// are distinct and hold its own, and adds nothing where they do not hold it.
proof fn lemma_union_push<Q: Query>(queries: Seq<Q>, query: Q, rots: Seq<Rotation>)
    requires
        rots.no_duplicates(),
    ensures
        union_spec(clusters_over(queries.push(query), rots)) == if rots.contains(query.rot_spec()) {
            union_spec(clusters_over(queries, rots)).insert(query)
        } else {
            union_spec(clusters_over(queries, rots))
        },
    decreases rots.len(),
{
    broadcast use vstd::multiset::group_multiset_axioms;

    let before = clusters_over(queries, rots);
    let after = clusters_over(queries.push(query), rots);
    if rots.len() > 0 {
        let init = rots.drop_last();
        let rot = rots.last();
        lemma_union_push(queries, query, init);
        assert(before.drop_last() =~= clusters_over(queries, init));
        assert(after.drop_last() =~= clusters_over(queries.push(query), init));
        assert(queries.push(query).drop_last() =~= queries);
        let members = members_spec(queries, rot);
        if query.rot_spec() == rot {
            assert(rots[rots.len() - 1] == query.rot_spec());
            assert(!init.contains(query.rot_spec())) by {
                if init.contains(query.rot_spec()) {
                    let j = choose|j: int| 0 <= j < init.len() && init[j] == query.rot_spec();
                    assert(rots[j] == rots[rots.len() - 1]);
                }
            }
            vstd::seq_lib::to_multiset_build(members, query);
            assert(union_spec(after) =~= union_spec(before).insert(query));
        } else {
            assert(rots.contains(query.rot_spec()) <==> init.contains(query.rot_spec())) by {
                if rots.contains(query.rot_spec()) {
                    let j = choose|j: int| 0 <= j < rots.len() && rots[j] == query.rot_spec();
                    assert(init[j] == query.rot_spec());
                }
                if init.contains(query.rot_spec()) {
                    let j = choose|j: int| 0 <= j < init.len() && init[j] == query.rot_spec();
                    assert(rots[j] == query.rot_spec());
                }
            }
            if rots.contains(query.rot_spec()) {
                assert(union_spec(after) =~= union_spec(before).insert(query));
            } else {
                assert(union_spec(after) =~= union_spec(before));
            }
        }
    }
}

/// The clusters part the queries: each cluster holds queries at its own
/// rotation only, no two clusters have one rotation, no cluster is empty, and
/// all clusters together hold every query as often as it was given.
pub proof fn lemma_clusters_partition<Q: Query>(queries: Seq<Q>)
    ensures
        forall|i: int, j: int|
            0 <= i < clusters_spec(queries).len() && 0 <= j < clusters_spec(queries)[i].1.len()
                ==> (#[trigger] clusters_spec(queries)[i].1[j]).rot_spec() == clusters_spec(
                queries,
            )[i].0,
        forall|i: int, j: int|
            0 <= i < j < clusters_spec(queries).len() ==> (#[trigger] clusters_spec(queries)[i]).0
                != (#[trigger] clusters_spec(queries)[j]).0,
        union_spec(clusters_spec(queries)) == queries.to_multiset(),
    decreases queries.len(),
{
    broadcast use vstd::multiset::group_multiset_axioms;

    let clusters = clusters_spec(queries);
    let rots = rotations_spec(queries);
    lemma_rotations_distinct(queries);
    assert forall|i: int, j: int|
        0 <= i < clusters.len() && 0 <= j < clusters[i].1.len() implies (#[trigger] clusters[i].1[j]).rot_spec()
        == clusters[i].0 by {
        lemma_members_rotation(queries, rots[i]);
    }
    if queries.len() == 0 {
        queries.to_multiset_ensures();
        assert(queries.to_multiset() =~= Multiset::<Q>::empty());
    } else {
        let earlier = queries.drop_last();
        let query = queries.last();
        let before = rotations_spec(earlier);
        assert(queries =~= earlier.push(query));
        lemma_clusters_partition(earlier);
        lemma_rotations_distinct(earlier);
        lemma_union_push(earlier, query, before);
        vstd::seq_lib::to_multiset_build(earlier, query);
        if !before.contains(query.rot_spec()) {
            lemma_members_absent(earlier, query.rot_spec());
            assert(clusters.drop_last() =~= clusters_over(queries, before));
            vstd::seq_lib::to_multiset_build(Seq::<Q>::empty(), query);
            Seq::<Q>::empty().to_multiset_ensures();
            assert(Seq::<Q>::empty().to_multiset() =~= Multiset::<Q>::empty());
            assert(union_spec(clusters) =~= earlier.to_multiset().insert(query));
        }
    }
}

/// No cluster is empty.
pub proof fn lemma_clusters_inhabited<Q: Query>(queries: Seq<Q>, i: int)
    requires
        0 <= i < clusters_spec(queries).len(),
    ensures
        clusters_spec(queries)[i].1.len() > 0,
{
    lemma_rotations_occur(queries, i);
    let k = choose|k: int|
        0 <= k < queries.len() && queries[k].rot_spec() == rotations_spec(queries)[i];
    lemma_members_hold(queries, k);
}

/// Every query is a member of the cluster at its rotation.
pub proof fn lemma_members_hold<Q: Query>(queries: Seq<Q>, k: int)
    requires
        0 <= k < queries.len(),
    ensures
        members_spec(queries, queries[k].rot_spec()).contains(queries[k]),
    decreases queries.len(),
{
    let rot = queries[k].rot_spec();
    let earlier = members_spec(queries.drop_last(), rot);
    if k < queries.len() - 1 {
        lemma_members_hold(queries.drop_last(), k);
        let j = choose|j: int| 0 <= j < earlier.len() && earlier[j] == queries[k];
        assert(members_spec(queries, rot)[j] == queries[k]);
    } else {
        assert(members_spec(queries, rot)[earlier.len() as int] == queries[k]);
    }
}

} // verus!
