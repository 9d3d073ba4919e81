//! Polynomials in coefficient form, lowest degree first: evaluation, the
//! linear combinations that batch several openings into one, and exact
//! division by a monic linear factor.

use vstd::prelude::*;

use crate::field::{all_valid, lemma_add_cancel, lemma_mul_zero, lemma_sub_self, lemma_zero_add, Scalar};

verus! {

/// A polynomial, held as its coefficients from the constant term upward.
pub struct Polynomial<F> {
    /// The coefficients; `values[i]` belongs to `X^i`.
    pub values: Vec<F>,
}

impl<F> View for Polynomial<F> {
    type V = Seq<F>;

    open spec fn view(&self) -> Seq<F> {
        self.values@
    }
}

/// The value of `p` at `z`, by Horner's rule: the value of the polynomial
/// without its constant term, times `z`, plus the constant term.
pub open spec fn eval_spec<F: Scalar>(p: Seq<F>, z: F) -> F
    decreases p.len(),
{
    if p.len() == 0 {
        F::zero_spec()
    } else {
        eval_spec(p.skip(1), z).mul_spec(z).add_spec(p[0])
    }
}

/// The zero polynomial with `n` coefficients.
pub open spec fn zeros_spec<F: Scalar>(n: nat) -> Seq<F> {
    Seq::new(n, |i: int| F::zero_spec())
}

/// `p * v`, coefficient by coefficient.
pub open spec fn scale_spec<F: Scalar>(p: Seq<F>, v: F) -> Seq<F> {
    Seq::new(p.len(), |i: int| p[i].mul_spec(v))
}

/// `p + q`, coefficient by coefficient, for polynomials of one length.
pub open spec fn sum_spec<F: Scalar>(p: Seq<F>, q: Seq<F>) -> Seq<F> {
    Seq::new(p.len(), |i: int| p[i].add_spec(q[i]))
}

/// `p - e`: the constant term is lowered by `e`, the rest is kept.
pub open spec fn sub_constant_spec<F: Scalar>(p: Seq<F>, e: F) -> Seq<F> {
    p.update(0, p[0].sub_spec(e))
}

/// `p + e`: the constant term is raised by `e`, the rest is kept.
pub open spec fn add_constant_spec<F: Scalar>(p: Seq<F>, e: F) -> Seq<F> {
    p.update(0, p[0].add_spec(e))
}

/// The quotient of `p` by `X - z`: one coefficient fewer than `p`, the one of
/// `X^i` being the value at `z` of `p` without its lowest `i + 1` terms. So
/// `quotient[i] = quotient[i + 1] * z + p[i + 1]`, from the top down. The
/// empty polynomial has the empty quotient.
pub open spec fn quotient_spec<F: Scalar>(p: Seq<F>, z: F) -> Seq<F> {
    let len = if p.len() >= 1 { (p.len() - 1) as nat } else { 0 };
    Seq::new(len, |i: int| eval_spec(p.skip(i + 1), z))
}

/// `(X - z) * q`: one coefficient more than `q`, the one of `X^i` being
/// `q[i - 1] - q[i] * z`, where a coefficient outside `q` counts as zero.
pub open spec fn times_linear_spec<F: Scalar>(q: Seq<F>, z: F) -> Seq<F> {
    Seq::new(
        q.len() + 1,
        |i: int|
            {
                let low = if i >= 1 { q[i - 1] } else { F::zero_spec() };
                let high = if i < q.len() { q[i] } else { F::zero_spec() };
                low.sub_spec(high.mul_spec(z))
            },
    )
}

impl<F: Scalar> Polynomial<F> {
    /// Makes a polynomial of the given coefficients.
    pub fn new(values: Vec<F>) -> (r: Self)
        ensures
            r@ == values@,
    {
        Polynomial { values }
    }

    /// Returns the zero polynomial with `n` coefficients.
    pub fn zero(n: usize) -> (r: Self)
        ensures
            r@ == zeros_spec::<F>(n as nat),
    {
        let mut values: Vec<F> = Vec::new();
        let mut i: usize = 0;
        while i < n
            invariant
                i <= n,
                values@ =~= zeros_spec::<F>(i as nat),
            decreases n - i,
        {
            values.push(F::zero());
            i += 1;
        }
        Polynomial { values }
    }

    /// Returns the number of coefficients.
    pub fn len(&self) -> (r: usize)
        ensures
            r == self@.len(),
    {
        self.values.len()
    }

    /// Returns `self * v`.
    pub fn scaled(&self, v: F) -> (r: Self)
        ensures
            r@ == scale_spec(self@, v),
    {
        let n = self.values.len();
        let mut values: Vec<F> = Vec::new();
        let mut i: usize = 0;
        while i < n
            invariant
                n == self.values.len(),
                i <= n,
                values@ =~= scale_spec(self@.take(i as int), v),
            decreases n - i,
        {
            values.push(self.values[i].mul(&v));
            i += 1;
        }
        assert(self@.take(n as int) =~= self@);
        Polynomial { values }
    }

    /// Returns `self + rhs`. Both have the same number of coefficients.
    pub fn plus(&self, rhs: &Self) -> (r: Self)
        requires
            self@.len() == rhs@.len(),
        ensures
            r@ == sum_spec(self@, rhs@),
    {
        let n = self.values.len();
        let mut values: Vec<F> = Vec::new();
        let mut i: usize = 0;
        while i < n
            invariant
                n == self.values.len(),
                n == rhs.values.len(),
                i <= n,
                values@ =~= sum_spec(self@.take(i as int), rhs@.take(i as int)),
            decreases n - i,
        {
            values.push(self.values[i].add(&rhs.values[i]));
            i += 1;
        }
        assert(self@.take(n as int) =~= self@);
        assert(rhs@.take(n as int) =~= rhs@);
        Polynomial { values }
    }

    /// Returns `self - e`: only the constant term changes. The polynomial has
    /// at least one coefficient.
    pub fn minus_constant(&self, e: F) -> (r: Self)
        requires
            self@.len() >= 1,
        ensures
            r@ == sub_constant_spec(self@, e),
    {
        let n = self.values.len();
        let mut values: Vec<F> = Vec::new();
        values.push(self.values[0].sub(&e));
        let mut i: usize = 1;
        while i < n
            invariant
                n == self.values.len(),
                1 <= i <= n,
                values@ =~= sub_constant_spec(self@, e).take(i as int),
            decreases n - i,
        {
            values.push(self.values[i]);
            i += 1;
        }
        assert(sub_constant_spec(self@, e).take(n as int) =~= sub_constant_spec(self@, e));
        Polynomial { values }
    }
}

/// Evaluates the polynomial with coefficients `poly` at `point`.
pub fn eval_polynomial<F: Scalar>(poly: &[F], point: F) -> (r: F)
    ensures
        r == eval_spec(poly@, point),
{
    let mut acc = F::zero();
    let mut i: usize = poly.len();
    assert(poly@.skip(i as int) =~= Seq::<F>::empty());
    while i > 0
        invariant
            i <= poly.len(),
            acc == eval_spec(poly@.skip(i as int), point),
        decreases i,
    {
        i -= 1;
        assert(poly@.skip(i as int).skip(1) =~= poly@.skip(i + 1));
        acc = acc.mul(&point).add(&poly[i]);
    }
    assert(poly@.skip(0) =~= poly@);
    acc
}

/// Divides the polynomial with coefficients `a` by `X - z` and returns the
/// quotient; the remainder, which is the value of `a` at `z`, is dropped.
/// `a` has at least one coefficient.
pub fn kate_division<F: Scalar>(a: &[F], z: F) -> (q: Vec<F>)
    requires
        a@.len() >= 1,
    ensures
        q@ == quotient_spec(a@, z),
{
    let n = a.len();
    let mut q: Vec<F> = Polynomial::<F>::zero(n - 1).values;
    let mut tmp = F::zero();
    let mut i: usize = n - 1;
    assert(a@.skip(n as int) =~= Seq::<F>::empty());
    while i > 0
        invariant
            n == a.len(),
            i <= n - 1,
            q.len() == n - 1,
            tmp == eval_spec(a@.skip(i + 1), z),
            forall|j: int| i <= j < n - 1 ==> q[j] == eval_spec(a@.skip(j + 1), z),
        decreases i,
    {
        assert(a@.skip(i as int).skip(1) =~= a@.skip(i + 1));
        tmp = tmp.mul(&z).add(&a[i]);
        q.set(i - 1, tmp);
        i -= 1;
    }
    assert(q@ =~= quotient_spec(a@, z));
    q
}

/// Dropping the lowest terms of a polynomial with valid coefficients leaves
/// valid coefficients.
pub proof fn lemma_skip_valid<F: Scalar>(p: Seq<F>, k: int)
    requires
        all_valid(p),
        0 <= k <= p.len(),
    ensures
        all_valid(p.skip(k)),
{
    assert forall|i: int| 0 <= i < p.skip(k).len() implies (#[trigger] p.skip(k)[i]).valid() by {
        assert(p.skip(k)[i] == p[i + k]);
    }
}

/// The value of a polynomial with valid coefficients at a valid point is valid.
pub proof fn lemma_eval_valid<F: Scalar>(p: Seq<F>, z: F)
    requires
        all_valid(p),
        z.valid(),
    ensures
        eval_spec(p, z).valid(),
    decreases p.len(),
{
    F::lemma_identities_valid();
    if p.len() > 0 {
        lemma_skip_valid(p, 1);
        lemma_eval_valid(p.skip(1), z);
        F::lemma_closed(eval_spec(p.skip(1), z), z);
        F::lemma_closed(eval_spec(p.skip(1), z).mul_spec(z), p[0]);
    }
}

/// The quotient of a polynomial with valid coefficients by `X - z`, for a
/// valid `z`, has valid coefficients.
pub proof fn lemma_quotient_valid<F: Scalar>(p: Seq<F>, z: F)
    requires
        all_valid(p),
        z.valid(),
    ensures
        all_valid(quotient_spec(p, z)),
{
    let q = quotient_spec(p, z);
    assert forall|i: int| 0 <= i < q.len() implies (#[trigger] q[i]).valid() by {
        lemma_skip_valid(p, i + 1);
        lemma_eval_valid(p.skip(i + 1), z);
    }
}

/// The zero polynomial is zero everywhere.
pub proof fn lemma_eval_zeros<F: Scalar>(n: nat, z: F)
    requires
        z.valid(),
    ensures
        eval_spec(zeros_spec::<F>(n), z) == F::zero_spec(),
    decreases n,
{
    if n > 0 {
        lemma_eval_zeros::<F>((n - 1) as nat, z);
        assert(zeros_spec::<F>(n).skip(1) =~= zeros_spec::<F>((n - 1) as nat));
        F::lemma_identities_valid();
        lemma_mul_zero(z);
        F::lemma_add_zero(F::zero_spec());
    }
}

/// Evaluation is linear: the value of `p * v + q` at `z` is the value of `p`
/// times `v`, plus the value of `q`.
pub proof fn lemma_eval_linear<F: Scalar>(p: Seq<F>, v: F, q: Seq<F>, z: F)
    requires
        p.len() == q.len(),
        all_valid(p),
        all_valid(q),
        v.valid(),
        z.valid(),
    ensures
        eval_spec(sum_spec(scale_spec(p, v), q), z) == eval_spec(p, z).mul_spec(v).add_spec(
            eval_spec(q, z),
        ),
    decreases p.len(),
{
    let zero = F::zero_spec();
    F::lemma_identities_valid();
    if p.len() == 0 {
        lemma_mul_zero(v);
        F::lemma_add_zero(zero);
    } else {
        let c = sum_spec(scale_spec(p, v), q);
        assert(c.skip(1) =~= sum_spec(scale_spec(p.skip(1), v), q.skip(1)));
        lemma_skip_valid(p, 1);
        lemma_skip_valid(q, 1);
        lemma_eval_linear(p.skip(1), v, q.skip(1), z);
        lemma_eval_valid(p.skip(1), z);
        lemma_eval_valid(q.skip(1), z);
        let ep = eval_spec(p.skip(1), z);
        let eq = eval_spec(q.skip(1), z);
        // the claim, with every term named:
        //   (ep * v + eq) * z + (p0 * v + q0) == (ep * z + p0) * v + (eq * z + q0)
        let p0 = p[0];
        let q0 = q[0];
        let epv = ep.mul_spec(v);
        let epz = ep.mul_spec(z);
        let eqz = eq.mul_spec(z);
        let p0v = p0.mul_spec(v);
        F::lemma_closed(ep, v);
        F::lemma_closed(ep, z);
        F::lemma_closed(eq, z);
        F::lemma_closed(p0, v);
        F::lemma_closed(epv, eq);
        F::lemma_closed(epv, z);
        F::lemma_closed(epz, v);
        F::lemma_closed(epz, p0);
        F::lemma_closed(eqz, q0);
        // left side: (ep * v + eq) * z == ep * v * z + eq * z
        F::lemma_mul_commutative(epv.add_spec(eq), z);
        F::lemma_distributive(z, epv, eq);
        F::lemma_mul_commutative(z, epv);
        F::lemma_mul_commutative(z, eq);
        // right side: (ep * z + p0) * v == ep * z * v + p0 * v
        F::lemma_mul_commutative(epz.add_spec(p0), v);
        F::lemma_distributive(v, epz, p0);
        F::lemma_mul_commutative(v, epz);
        F::lemma_mul_commutative(v, p0);
        // ep * v * z == ep * z * v
        F::lemma_mul_associative(ep, v, z);
        F::lemma_mul_associative(ep, z, v);
        F::lemma_mul_commutative(v, z);
        let m = epv.mul_spec(z);
        assert(m == epz.mul_spec(v));
        F::lemma_closed(m, eqz);
        F::lemma_closed(m, p0v);
        F::lemma_closed(p0v, q0);
        F::lemma_closed(p0v, eqz);
        F::lemma_closed(eqz, p0v);
        // (m + eqz) + (p0v + q0) == (m + p0v) + (eqz + q0)
        F::lemma_add_associative(m, eqz, p0v.add_spec(q0));
        F::lemma_add_associative(eqz, p0v, q0);
        F::lemma_add_commutative(eqz, p0v);
        F::lemma_add_associative(p0v, eqz, q0);
        F::lemma_add_associative(m, p0v, eqz.add_spec(q0));
    }
}

/// Lowering the constant term by `e` lowers the value at every point by `e`.
pub proof fn lemma_eval_sub_constant<F: Scalar>(p: Seq<F>, e: F, z: F)
    requires
        p.len() >= 1,
        all_valid(p),
        e.valid(),
        z.valid(),
    ensures
        eval_spec(sub_constant_spec(p, e), z) == eval_spec(p, z).sub_spec(e),
{
    let adjusted = sub_constant_spec(p, e);
    assert(adjusted.skip(1) =~= p.skip(1));
    lemma_skip_valid(p, 1);
    lemma_eval_valid(p.skip(1), z);
    let t = eval_spec(p.skip(1), z).mul_spec(z);
    let p0 = p[0];
    F::lemma_closed(eval_spec(p.skip(1), z), z);
    F::lemma_closed(p0, e);
    F::lemma_closed(t, p0);
    F::lemma_closed(t, p0.sub_spec(e));
    F::lemma_closed(t.add_spec(p0), e);
    // (t + (p0 - e)) + e == t + p0 == ((t + p0) - e) + e
    F::lemma_add_associative(t, p0.sub_spec(e), e);
    F::lemma_sub_inverse(p0, e);
    F::lemma_sub_inverse(t.add_spec(p0), e);
    lemma_add_cancel(t.add_spec(p0.sub_spec(e)), t.add_spec(p0).sub_spec(e), e);
}

/// A polynomial lowered by its own value at `z` vanishes at `z`.
pub proof fn lemma_vanishes<F: Scalar>(p: Seq<F>, z: F)
    requires
        p.len() >= 1,
        all_valid(p),
        z.valid(),
    ensures
        eval_spec(sub_constant_spec(p, eval_spec(p, z)), z) == F::zero_spec(),
{
    lemma_eval_valid(p, z);
    lemma_eval_sub_constant(p, eval_spec(p, z), z);
    lemma_sub_self(eval_spec(p, z));
}

/// Division by `X - z` is exact up to the remainder: the quotient times
/// `X - z`, plus the value of `p` at `z`, is `p` again, coefficient by
/// coefficient.
pub proof fn lemma_division_round_trip<F: Scalar>(p: Seq<F>, z: F)
    requires
        p.len() >= 1,
        all_valid(p),
        z.valid(),
    ensures
        add_constant_spec(times_linear_spec(quotient_spec(p, z), z), eval_spec(p, z)) == p,
{
    let zero = F::zero_spec();
    let q = quotient_spec(p, z);
    let product = times_linear_spec(q, z);
    let back = add_constant_spec(product, eval_spec(p, z));
    let n = p.len() as int;
    F::lemma_identities_valid();
    lemma_quotient_valid(p, z);
    lemma_mul_zero(z);
    assert(p.skip(n) =~= Seq::<F>::empty());
    assert forall|i: int| 0 <= i < n implies back[i] == p[i] by {
        // what stands above p[i] in Horner's rule, times z
        let above = eval_spec(p.skip(i + 1), z);
        let t = above.mul_spec(z);
        lemma_skip_valid(p, i + 1);
        lemma_eval_valid(p.skip(i + 1), z);
        F::lemma_closed(above, z);
        F::lemma_closed(t, p[i]);
        assert(p.skip(i).skip(1) =~= p.skip(i + 1));
        assert(eval_spec(p.skip(i), z) == t.add_spec(p[i]));
        // the coefficient of the product: low - high * z, where high * z == t
        let low = if i >= 1 { q[i - 1] } else { zero };
        let high = if i < q.len() { q[i] } else { zero };
        assert(high.mul_spec(z) == t) by {
            if i == n - 1 {
                assert(above == zero);
            }
        }
        assert(product[i] == low.sub_spec(t));
        if i >= 1 {
            // low == t + p[i], and (t + p[i]) - t == p[i]
            assert(low == t.add_spec(p[i]));
            F::lemma_add_commutative(t, p[i]);
            F::lemma_sub_inverse(p[i], t);
        } else {
            // ((0 - t) + (t + p[0])) == ((0 - t) + t) + p[0] == 0 + p[0]
            assert(p.skip(0) =~= p);
            F::lemma_closed(zero, t);
            F::lemma_add_associative(zero.sub_spec(t), t, p[0]);
            F::lemma_sub_inverse(zero, t);
            lemma_zero_add(p[0]);
        }
    }
    assert(back =~= p);
}

/// A polynomial that vanishes at `z` is the product of its quotient by
/// `X - z` with `X - z`: the division leaves no remainder.
pub proof fn lemma_division_exact<F: Scalar>(p: Seq<F>, z: F)
    requires
        p.len() >= 1,
        all_valid(p),
        z.valid(),
        eval_spec(p, z) == F::zero_spec(),
    ensures
        times_linear_spec(quotient_spec(p, z), z) == p,
{
    lemma_division_round_trip(p, z);
    let product = times_linear_spec(quotient_spec(p, z), z);
    lemma_quotient_valid(p, z);
    F::lemma_identities_valid();
    lemma_mul_zero(z);
    let low = F::zero_spec();
    let high = if 0 < quotient_spec(p, z).len() { quotient_spec(p, z)[0] } else { F::zero_spec() };
    F::lemma_closed(high, z);
    F::lemma_closed(low, high.mul_spec(z));
    F::lemma_add_zero(product[0]);
    assert(add_constant_spec(product, F::zero_spec()) =~= product);
}

} // verus!
