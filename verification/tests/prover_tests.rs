use multiopen::clear::ClearPoint;
use multiopen::fp::Fp;
use multiopen::{
    construct_intermediate_sets, create_proof, eval_polynomial, fold_cluster, kate_division, open_cluster,
    Cluster, CurveAffine, Error, EvaluationDomain, Event, MemoryTranscript, Params, Polynomial, ProverQuery,
    Rotation, Scalar, TranscriptFull, TranscriptWrite, Violation,
};

fn fp(x: u64) -> Fp {
    Fp::new(x)
}

fn fps(xs: &[u64]) -> Vec<Fp> {
    xs.iter().map(|x| Fp::new(*x)).collect()
}

fn poly(xs: &[u64]) -> Polynomial<Fp> {
    Polynomial::new(fps(xs))
}

fn point(x: u64) -> ClearPoint {
    ClearPoint { log: Fp::new(x) }
}

/// Base points 1, s, s^2, ..: a commitment is then the polynomial's value at s.
fn params(s: u64, n: usize) -> Params<ClearPoint> {
    let mut bases = Vec::new();
    let mut power = Fp::one();
    for _ in 0..n {
        bases.push(ClearPoint { log: power });
        power = power.mul(&fp(s));
    }
    Params::new(bases).unwrap()
}

fn domain(omega: u64, omega_inv: u64) -> EvaluationDomain<Fp> {
    EvaluationDomain::new(fp(omega), fp(omega_inv))
}

fn transcript(challenge: u64) -> MemoryTranscript<ClearPoint> {
    MemoryTranscript::new(vec![fp(challenge)], 64)
}

fn challenges(t: &MemoryTranscript<ClearPoint>) -> Vec<(usize, Fp)> {
    let mut out = Vec::new();
    for (i, event) in t.log.iter().enumerate() {
        if let Event::Challenge(v) = event {
            out.push((i, *v));
        }
    }
    out
}

/// (X - z) * q, by the schoolbook rule.
fn times_linear(q: &[Fp], z: Fp) -> Vec<Fp> {
    let mut out = vec![Fp::zero(); q.len() + 1];
    for i in 0..q.len() {
        out[i + 1] = out[i + 1].add(&q[i]);
        out[i] = out[i].sub(&q[i].mul(&z));
    }
    out
}

#[test]
fn one_polynomial_at_rotation_zero() {
    let p = poly(&[1, 2, 3, 4]);
    let params = params(7, 4);
    let domain = domain(3, 5);
    let x = fp(2);
    let mut t = transcript(5);
    let queries = vec![ProverQuery { key: 0, rot: Rotation(0), poly: &p }];
    assert!(create_proof(&params, &domain, x, &mut t, &queries).is_ok());

    // the rotation by zero leaves the point where it is
    let z = domain.rotate_omega(x, Rotation(0));
    assert_eq!(z, x);
    let claimed = eval_polynomial(&p.values, z);
    assert_eq!(claimed, fp(49));

    // the witness: three coefficients, and (X - z) * witness + p(z) == p
    let witness = kate_division(&p.minus_constant(claimed).values, z);
    assert_eq!(witness, fps(&[24, 11, 4]));
    let mut back = times_linear(&witness, z);
    back[0] = back[0].add(&claimed);
    assert_eq!(back, p.values);

    // one challenge, then exactly one point: the commitment to the witness,
    // 24 + 11 * 7 + 4 * 49
    assert_eq!(t.log.len(), 2);
    assert!(matches!(t.log[0], Event::Challenge(v) if v == fp(5)));
    assert!(matches!(t.log[1], Event::Point(w) if w == point(297)));
    assert_eq!(t.points(), vec![point(297)]);
}

#[test]
fn opening_satisfies_the_equation_of_the_scheme() {
    // commit(witness) * (s - z) == commit(p) - p(z)
    let p = poly(&[1, 2, 3, 4]);
    let params = params(7, 4);
    let mut t = transcript(5);
    let queries = vec![ProverQuery { key: 0, rot: Rotation(0), poly: &p }];
    create_proof(&params, &domain(3, 5), fp(2), &mut t, &queries).unwrap();
    let w = t.points()[0].log;
    let left = w.mul(&fp(7).sub(&fp(2)));
    let right = params.commit(&p).log.sub(&fp(49));
    assert_eq!(left, fp(1485));
    assert_eq!(right, fp(1485));
}

#[test]
fn folding_follows_the_order_of_the_queries() {
    let p1 = poly(&[1, 2]);
    let p2 = poly(&[3, 4]);
    let cluster: Cluster<ProverQuery<ClearPoint>> = Cluster {
        rot: Rotation(0),
        queries: vec![
            ProverQuery { key: 0, rot: Rotation(0), poly: &p1 },
            ProverQuery { key: 1, rot: Rotation(0), poly: &p2 },
        ],
    };
    let (poly_batch, eval_batch) = fold_cluster(2, fp(5), fp(2), &cluster).unwrap();
    // p1 * 5 + p2, not p1 + p2 * 5
    assert_eq!(poly_batch.values, fps(&[8, 14]));
    assert_ne!(poly_batch.values, fps(&[16, 22]));
    // p1(2) * 5 + p2(2) = 5 * 5 + 11
    assert_eq!(eval_batch, fp(36));
    assert_eq!(eval_polynomial(&poly_batch.values, fp(2)), fp(36));
}

#[test]
fn folding_an_empty_cluster_gives_zero() {
    let cluster: Cluster<ProverQuery<ClearPoint>> = Cluster { rot: Rotation(0), queries: vec![] };
    let (poly_batch, eval_batch) = fold_cluster(3, fp(5), fp(2), &cluster).unwrap();
    assert_eq!(poly_batch.values, fps(&[0, 0, 0]));
    assert_eq!(eval_batch, fp(0));
}

#[test]
fn folding_three_polynomials() {
    let polys = [poly(&[1, 0]), poly(&[0, 1]), poly(&[2, 3])];
    let cluster: Cluster<ProverQuery<ClearPoint>> = Cluster {
        rot: Rotation(1),
        queries: polys
            .iter()
            .enumerate()
            .map(|(key, p)| ProverQuery { key, rot: Rotation(1), poly: p })
            .collect(),
    };
    let (poly_batch, eval_batch) = fold_cluster(2, fp(10), fp(3), &cluster).unwrap();
    // (p0 * 10 + p1) * 10 + p2 = 100 p0 + 10 p1 + p2
    assert_eq!(poly_batch.values, fps(&[102, 13]));
    // 100 * 1 + 10 * 3 + 11
    assert_eq!(eval_batch, fp(141));
}

#[test]
fn rotation_mismatch_in_a_cluster_is_a_violation() {
    let p = poly(&[1, 2, 3, 4]);
    let cluster: Cluster<ProverQuery<ClearPoint>> = Cluster {
        rot: Rotation(0),
        queries: vec![
            ProverQuery { key: 0, rot: Rotation(0), poly: &p },
            ProverQuery { key: 1, rot: Rotation(1), poly: &p },
        ],
    };
    assert_eq!(
        open_cluster(&params(7, 4), &domain(3, 5), fp(2), fp(5), &cluster),
        Err(Violation::RotationMismatch)
    );
    assert!(matches!(fold_cluster(4, fp(5), fp(2), &cluster), Err(Violation::RotationMismatch)));
}

#[test]
fn length_mismatch_in_a_cluster_is_a_violation() {
    let p = poly(&[1, 2, 3, 4]);
    let short = poly(&[1, 2, 3]);
    let cluster: Cluster<ProverQuery<ClearPoint>> = Cluster {
        rot: Rotation(0),
        queries: vec![
            ProverQuery { key: 0, rot: Rotation(0), poly: &p },
            ProverQuery { key: 1, rot: Rotation(0), poly: &short },
        ],
    };
    assert_eq!(
        open_cluster(&params(7, 4), &domain(3, 5), fp(2), fp(5), &cluster),
        Err(Violation::LengthMismatch)
    );
}

#[test]
fn rotation_mismatch_counts_before_length_mismatch() {
    let p = poly(&[1, 2, 3, 4]);
    let short = poly(&[1, 2, 3]);
    let cluster: Cluster<ProverQuery<ClearPoint>> = Cluster {
        rot: Rotation(0),
        queries: vec![
            ProverQuery { key: 0, rot: Rotation(0), poly: &short },
            ProverQuery { key: 1, rot: Rotation(0), poly: &p },
            ProverQuery { key: 2, rot: Rotation(2), poly: &p },
        ],
    };
    assert_eq!(
        open_cluster(&params(7, 4), &domain(3, 5), fp(2), fp(5), &cluster),
        Err(Violation::RotationMismatch)
    );
}

#[test]
fn open_cluster_exact() {
    let a = poly(&[1, 2, 3, 4]);
    let c = poly(&[2, 0, 1, 0]);
    let cluster: Cluster<ProverQuery<ClearPoint>> = Cluster {
        rot: Rotation(0),
        queries: vec![
            ProverQuery { key: 0, rot: Rotation(0), poly: &a },
            ProverQuery { key: 2, rot: Rotation(0), poly: &c },
        ],
    };
    // 5 a + c = [7, 10, 16, 20], which is 251 at 2; the quotient of
    // [7 - 251, 10, 16, 20] by X - 2 is [122, 56, 20]; at 7 that is 1494
    assert_eq!(open_cluster(&params(7, 4), &domain(3, 5), fp(2), fp(5), &cluster), Ok(point(1494)));
}

#[test]
fn two_rotations_two_points_in_cluster_order() {
    let a = poly(&[1, 2, 3, 4]);
    let b = poly(&[5, 6, 7, 8]);
    let c = poly(&[2, 0, 1, 0]);
    let params = params(7, 4);
    let domain = domain(3, 5);
    let mut t = transcript(5);
    let queries = vec![
        ProverQuery { key: 0, rot: Rotation(0), poly: &a },
        ProverQuery { key: 1, rot: Rotation(1), poly: &b },
        ProverQuery { key: 2, rot: Rotation(0), poly: &c },
    ];
    assert!(create_proof(&params, &domain, fp(2), &mut t, &queries).is_ok());
    // rotation 0 at z = 2: see open_cluster_exact; rotation 1 at z = 6:
    // b is 2021 there, the quotient is [336, 55, 8], at 7 that is 1113
    assert_eq!(t.points(), vec![point(1494), point(1113)]);
    assert_eq!(challenges(&t), vec![(0, fp(5))]);
    assert_eq!(t.log.len(), 3);
}

#[test]
fn one_write_for_each_cluster_after_one_challenge() {
    let p = poly(&[3, 1, 4, 1]);
    let params = params(11, 4);
    let domain = domain(3, 5);
    let rots = [2, -1, 2, 0, 0, -1, 5];
    let queries: Vec<ProverQuery<ClearPoint>> = rots
        .iter()
        .enumerate()
        .map(|(key, rot)| ProverQuery { key, rot: Rotation(*rot), poly: &p })
        .collect();
    let mut t = MemoryTranscript::new(vec![fp(9), fp(10)], 64);
    assert!(create_proof(&params, &domain, fp(2), &mut t, &queries).is_ok());

    let clusters = construct_intermediate_sets(&queries);
    assert_eq!(clusters.len(), 4);
    // the challenge comes first and is the only one
    assert_eq!(challenges(&t), vec![(0, fp(9))]);
    assert_eq!(t.cursor, 1);
    // then one point for each cluster, in the order of the clusters
    assert_eq!(t.log.len(), 1 + clusters.len());
    let expected: Vec<ClearPoint> = clusters
        .iter()
        .map(|cluster| open_cluster(&params, &domain, fp(2), fp(9), cluster).unwrap())
        .collect();
    assert_eq!(t.points(), expected);
}

#[test]
fn what_the_transcript_held_is_kept() {
    let p = poly(&[1, 2, 3, 4]);
    let mut t = MemoryTranscript::new(vec![fp(8), fp(5)], 64);
    t.write_point(point(77)).unwrap();
    assert_eq!(t.squeeze_challenge_scalar(), fp(8));
    let queries = vec![ProverQuery { key: 0, rot: Rotation(0), poly: &p }];
    create_proof(&params(7, 4), &domain(3, 5), fp(2), &mut t, &queries).unwrap();
    assert_eq!(t.log.len(), 4);
    assert!(matches!(t.log[0], Event::Point(w) if w == point(77)));
    assert!(matches!(t.log[1], Event::Challenge(v) if v == fp(8)));
    assert!(matches!(t.log[2], Event::Challenge(v) if v == fp(5)));
    assert!(matches!(t.log[3], Event::Point(w) if w == point(297)));
}

#[test]
fn two_runs_write_the_same() {
    let a = poly(&[1, 2, 3, 4]);
    let b = poly(&[5, 6, 7, 8]);
    let queries = vec![
        ProverQuery { key: 0, rot: Rotation(1), poly: &a },
        ProverQuery { key: 1, rot: Rotation(-1), poly: &b },
        ProverQuery { key: 0, rot: Rotation(-1), poly: &a },
    ];
    let mut first = transcript(12345);
    let mut second = transcript(12345);
    create_proof(&params(7, 4), &domain(3, 5), fp(2), &mut first, &queries).unwrap();
    create_proof(&params(7, 4), &domain(3, 5), fp(2), &mut second, &queries).unwrap();
    assert_eq!(first.points(), second.points());
    assert_eq!(challenges(&first), challenges(&second));
    assert_eq!(first.log.len(), second.log.len());
    assert_eq!(first.points().len(), 2);
}

#[test]
fn another_challenge_another_proof() {
    let a = poly(&[1, 2, 3, 4]);
    let b = poly(&[5, 6, 7, 8]);
    let queries = vec![
        ProverQuery { key: 0, rot: Rotation(0), poly: &a },
        ProverQuery { key: 1, rot: Rotation(0), poly: &b },
    ];
    let mut first = transcript(5);
    let mut second = transcript(6);
    create_proof(&params(7, 4), &domain(3, 5), fp(2), &mut first, &queries).unwrap();
    create_proof(&params(7, 4), &domain(3, 5), fp(2), &mut second, &queries).unwrap();
    assert_ne!(first.points(), second.points());
}

#[test]
fn no_queries_no_points() {
    let queries: Vec<ProverQuery<ClearPoint>> = Vec::new();
    let mut t = transcript(5);
    assert!(create_proof(&params(7, 4), &domain(3, 5), fp(2), &mut t, &queries).is_ok());
    assert_eq!(t.log.len(), 1);
    assert_eq!(challenges(&t), vec![(0, fp(5))]);
    assert_eq!(t.points(), vec![]);
}

#[test]
fn no_queries_succeed_on_a_full_transcript() {
    let queries: Vec<ProverQuery<ClearPoint>> = Vec::new();
    let mut t = MemoryTranscript::new(vec![fp(5)], 0);
    assert!(create_proof(&params(7, 4), &domain(3, 5), fp(2), &mut t, &queries).is_ok());
    assert_eq!(t.log.len(), 1);
}

#[test]
fn wrong_length_writes_no_point() {
    let a = poly(&[1, 2, 3, 4]);
    let short = poly(&[5, 6, 7]);
    let queries = vec![
        ProverQuery { key: 0, rot: Rotation(0), poly: &a },
        ProverQuery { key: 1, rot: Rotation(1), poly: &short },
    ];
    let mut t = transcript(5);
    let result = create_proof(&params(7, 4), &domain(3, 5), fp(2), &mut t, &queries);
    assert!(matches!(result, Err(Error::InvariantViolation(Violation::LengthMismatch))));
    // the challenge was squeezed, once, and nothing was written
    assert_eq!(t.log.len(), 1);
    assert_eq!(challenges(&t), vec![(0, fp(5))]);
}

#[test]
fn too_long_is_a_wrong_length_too() {
    let long = poly(&[1, 2, 3, 4, 5]);
    let queries = vec![ProverQuery { key: 0, rot: Rotation(0), poly: &long }];
    let mut t = transcript(5);
    let result = create_proof(&params(7, 4), &domain(3, 5), fp(2), &mut t, &queries);
    assert!(matches!(result, Err(Error::InvariantViolation(Violation::LengthMismatch))));
}

#[test]
fn a_refused_write_ends_the_run() {
    let a = poly(&[1, 2, 3, 4]);
    let queries = vec![
        ProverQuery { key: 0, rot: Rotation(0), poly: &a },
        ProverQuery { key: 0, rot: Rotation(1), poly: &a },
        ProverQuery { key: 0, rot: Rotation(2), poly: &a },
    ];
    // room for the challenge and one point
    let mut t = MemoryTranscript::new(vec![fp(5)], 2);
    let result = create_proof(&params(7, 4), &domain(3, 5), fp(2), &mut t, &queries);
    assert!(matches!(result, Err(Error::Transcript(TranscriptFull))));
    assert_eq!(t.log.len(), 2);
    assert_eq!(t.points(), vec![point(297)]);
}

#[test]
fn a_transcript_without_room_refuses_the_first_point() {
    let a = poly(&[1, 2, 3, 4]);
    let queries = vec![ProverQuery { key: 0, rot: Rotation(0), poly: &a }];
    let mut t = MemoryTranscript::new(vec![fp(5)], 1);
    let result = create_proof(&params(7, 4), &domain(3, 5), fp(2), &mut t, &queries);
    assert!(matches!(result, Err(Error::Transcript(TranscriptFull))));
    assert_eq!(t.points(), vec![]);
}

#[test]
fn domain_of_size_one() {
    // a constant polynomial: the witness is empty, its commitment the
    // neutral element
    let p = poly(&[42]);
    let queries = vec![ProverQuery { key: 0, rot: Rotation(0), poly: &p }];
    let mut t = transcript(5);
    create_proof(&params(7, 1), &domain(3, 5), fp(2), &mut t, &queries).unwrap();
    assert_eq!(t.points(), vec![ClearPoint::identity()]);
}

#[test]
fn rotations_move_the_point() {
    let d = domain(3, 5);
    assert_eq!(d.rotate_omega(fp(2), Rotation(0)), fp(2));
    assert_eq!(d.rotate_omega(fp(2), Rotation(1)), fp(6));
    assert_eq!(d.rotate_omega(fp(2), Rotation(2)), fp(18));
    assert_eq!(d.rotate_omega(fp(2), Rotation(4)), fp(162));
    // backwards by the inverse generator
    assert_eq!(d.rotate_omega(fp(2), Rotation(-1)), fp(10));
    assert_eq!(d.rotate_omega(fp(2), Rotation(-3)), fp(250));
}

#[test]
fn rotation_and_its_inverse_cancel() {
    // 3 * 1537228672809129301 = 2 * (2^61 - 1) + 1
    let d = domain(3, 1537228672809129301);
    assert_eq!(fp(3).mul(&fp(1537228672809129301)), fp(1));
    let moved = d.rotate_omega(fp(2), Rotation(5));
    assert_eq!(d.rotate_omega(moved, Rotation(-5)), fp(2));
}

#[test]
fn params_need_a_base_point() {
    assert!(Params::<ClearPoint>::new(vec![]).is_none());
    let one = Params::new(vec![point(1)]).unwrap();
    assert_eq!(one.n(), 1);
    assert_eq!(params(7, 4).n(), 4);
}

#[test]
fn commit_exact() {
    let params = params(7, 4);
    // 1 + 2 * 7 + 3 * 49 + 4 * 343
    assert_eq!(params.commit(&poly(&[1, 2, 3, 4])), point(1534));
    // fewer coefficients than base points
    assert_eq!(params.commit(&poly(&[24, 11, 4])), point(297));
    assert_eq!(params.commit(&poly(&[])), ClearPoint::identity());
}

#[test]
fn clear_point_operations() {
    assert_eq!(ClearPoint::identity(), point(0));
    assert_eq!(ClearPoint::sum(&point(3), &point(4)), point(7));
    assert_eq!(point(3).times(&fp(4)), point(12));
    assert_eq!(ClearPoint::to_affine(&point(9)), point(9));
}

#[test]
fn memory_transcript_follows_its_script() {
    let mut t: MemoryTranscript<ClearPoint> = MemoryTranscript::new(vec![fp(3), fp(1), fp(4)], 5);
    assert_eq!(t.squeeze_challenge_scalar(), fp(3));
    assert_eq!(t.squeeze_challenge_scalar(), fp(1));
    assert!(t.write_point(point(10)).is_ok());
    assert_eq!(t.squeeze_challenge_scalar(), fp(4));
    // the script is used up
    assert_eq!(t.squeeze_challenge_scalar(), fp(0));
    assert_eq!(t.log.len(), 5);
    // and the log is full
    assert_eq!(t.write_point(point(11)), Err(TranscriptFull));
    assert_eq!(t.log.len(), 5);
    assert_eq!(t.points(), vec![point(10)]);
}

/// Integers modulo 101 with a subtraction that is off by one.
#[derive(Clone, Copy, Debug, PartialEq)]
struct Skewed(u64);

impl Scalar for Skewed {
    fn valid(self) -> bool {
        self.0 < 101
    }
    fn zero_spec() -> Self {
        Skewed(0)
    }
    fn one_spec() -> Self {
        Skewed(1)
    }
    fn add_spec(self, rhs: Self) -> Self {
        self.add(&rhs)
    }
    fn sub_spec(self, rhs: Self) -> Self {
        self.sub(&rhs)
    }
    fn mul_spec(self, rhs: Self) -> Self {
        self.mul(&rhs)
    }
    fn lemma_identities_valid() {}
    fn lemma_closed(_a: Self, _b: Self) {}
    fn lemma_add_commutative(_a: Self, _b: Self) {}
    fn lemma_add_associative(_a: Self, _b: Self, _c: Self) {}
    fn lemma_add_zero(_a: Self) {}
    fn lemma_sub_inverse(_a: Self, _b: Self) {}
    fn lemma_mul_commutative(_a: Self, _b: Self) {}
    fn lemma_mul_associative(_a: Self, _b: Self, _c: Self) {}
    fn lemma_mul_one(_a: Self) {}
    fn lemma_distributive(_a: Self, _b: Self, _c: Self) {}
    fn zero() -> Self {
        Skewed(0)
    }
    fn one() -> Self {
        Skewed(1)
    }
    fn add(&self, rhs: &Self) -> Self {
        Skewed((self.0 + rhs.0) % 101)
    }
    fn sub(&self, rhs: &Self) -> Self {
        Skewed((self.0 + 101 - rhs.0 % 101 + 1) % 101)
    }
    fn mul(&self, rhs: &Self) -> Self {
        Skewed((self.0 * rhs.0) % 101)
    }
    fn is_zero(&self) -> bool {
        self.0 == 0
    }
}

impl CurveAffine for Skewed {
    type Scalar = Skewed;
    type Curve = Skewed;
    fn identity_spec() -> Skewed {
        Skewed(0)
    }
    fn sum_spec(a: Skewed, b: Skewed) -> Skewed {
        a.add(&b)
    }
    fn times_spec(self, s: Skewed) -> Skewed {
        self.mul(&s)
    }
    fn to_affine_spec(p: Skewed) -> Skewed {
        p
    }
    fn identity() -> Skewed {
        Skewed(0)
    }
    fn sum(a: &Skewed, b: &Skewed) -> Skewed {
        a.add(b)
    }
    fn times(&self, s: &Skewed) -> Skewed {
        self.mul(s)
    }
    fn to_affine(p: &Skewed) -> Skewed {
        *p
    }
}

#[test]
fn scalars_that_break_the_laws_are_caught() {
    let p = Polynomial::new(vec![Skewed(1), Skewed(2), Skewed(3), Skewed(4)]);
    let params = Params::new(vec![Skewed(1), Skewed(7), Skewed(49), Skewed(40)]).unwrap();
    let domain = EvaluationDomain::new(Skewed(3), Skewed(34));
    let queries = vec![ProverQuery { key: 0, rot: Rotation(0), poly: &p }];
    let mut t: MemoryTranscript<Skewed> = MemoryTranscript::new(vec![Skewed(5)], 64);
    let result = create_proof(&params, &domain, Skewed(2), &mut t, &queries);
    assert!(matches!(result, Err(Error::InvariantViolation(Violation::NonVanishing))));
    assert_eq!(t.log.len(), 1);
    assert!(t.points().is_empty());
}
