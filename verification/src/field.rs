//! The arithmetic that the prover needs from its scalars: a commutative ring
//! with identity. Every finite field is one.

use vstd::prelude::*;

verus! {

/// A scalar: an element of a commutative ring with identity.
///
/// Each operation has a mathematical counterpart (`*_spec`) that the
/// executable method computes on every value of the type. The ring laws are
/// stated for the values that `valid` accepts, the elements in canonical form;
/// the operations map valid values to valid values.
pub trait Scalar: Sized + Copy {
    /// Whether the value is a ring element in canonical form.
    spec fn valid(self) -> bool;

    /// The additive identity.
    spec fn zero_spec() -> Self;

    /// The multiplicative identity.
    spec fn one_spec() -> Self;

    /// The sum of two elements.
    spec fn add_spec(self, rhs: Self) -> Self;

    /// The difference of two elements.
    spec fn sub_spec(self, rhs: Self) -> Self;

    /// The product of two elements.
    spec fn mul_spec(self, rhs: Self) -> Self;

    /// The two identities are valid.
    proof fn lemma_identities_valid()
        ensures
            Self::zero_spec().valid(),
            Self::one_spec().valid(),
    ;

    /// Sums, differences and products of valid elements are valid.
    proof fn lemma_closed(a: Self, b: Self)
        requires
            a.valid(),
            b.valid(),
        ensures
            a.add_spec(b).valid(),
            a.sub_spec(b).valid(),
            a.mul_spec(b).valid(),
    ;

    /// Addition is commutative.
    proof fn lemma_add_commutative(a: Self, b: Self)
        requires
            a.valid(),
            b.valid(),
        ensures
            a.add_spec(b) == b.add_spec(a),
    ;

    /// Addition is associative.
    proof fn lemma_add_associative(a: Self, b: Self, c: Self)
        requires
            a.valid(),
            b.valid(),
            c.valid(),
        ensures
            a.add_spec(b).add_spec(c) == a.add_spec(b.add_spec(c)),
    ;

    /// Zero is the identity of addition.
    proof fn lemma_add_zero(a: Self)
        requires
            a.valid(),
        ensures
            a.add_spec(Self::zero_spec()) == a,
    ;

    /// Subtraction undoes addition, and addition undoes subtraction.
    proof fn lemma_sub_inverse(a: Self, b: Self)
        requires
            a.valid(),
            b.valid(),
        ensures
            a.add_spec(b).sub_spec(b) == a,
            a.sub_spec(b).add_spec(b) == a,
    ;

    /// Multiplication is commutative.
    proof fn lemma_mul_commutative(a: Self, b: Self)
        requires
            a.valid(),
            b.valid(),
        ensures
            a.mul_spec(b) == b.mul_spec(a),
    ;

    /// Multiplication is associative.
    proof fn lemma_mul_associative(a: Self, b: Self, c: Self)
        requires
            a.valid(),
            b.valid(),
            c.valid(),
        ensures
            a.mul_spec(b).mul_spec(c) == a.mul_spec(b.mul_spec(c)),
    ;

    /// One is the identity of multiplication.
    proof fn lemma_mul_one(a: Self)
        requires
            a.valid(),
        ensures
            a.mul_spec(Self::one_spec()) == a,
    ;

    /// Multiplication distributes over addition.
    proof fn lemma_distributive(a: Self, b: Self, c: Self)
        requires
            a.valid(),
            b.valid(),
            c.valid(),
        ensures
            a.mul_spec(b.add_spec(c)) == a.mul_spec(b).add_spec(a.mul_spec(c)),
    ;

    /// Returns the additive identity.
    fn zero() -> (r: Self)
        ensures
            r == Self::zero_spec(),
    ;

    /// Returns the multiplicative identity.
    fn one() -> (r: Self)
        ensures
            r == Self::one_spec(),
    ;

    /// Returns `self + rhs`.
    fn add(&self, rhs: &Self) -> (r: Self)
        ensures
            r == self.add_spec(*rhs),
    ;

    /// Returns `self - rhs`.
    fn sub(&self, rhs: &Self) -> (r: Self)
        ensures
            r == self.sub_spec(*rhs),
    ;

    /// Returns `self * rhs`.
    fn mul(&self, rhs: &Self) -> (r: Self)
        ensures
            r == self.mul_spec(*rhs),
    ;

    /// Tells whether `self` is the additive identity.
    fn is_zero(&self) -> (r: bool)
        ensures
            r == (*self == Self::zero_spec()),
    ;
}

/// Whether every element of the sequence is valid.
pub open spec fn all_valid<F: Scalar>(s: Seq<F>) -> bool {
    forall|i: int| 0 <= i < s.len() ==> (#[trigger] s[i]).valid()
}

/// `base` raised to the power `exp`.
pub open spec fn pow_spec<F: Scalar>(base: F, exp: nat) -> F
    decreases exp,
{
    if exp == 0 {
        F::one_spec()
    } else {
        pow_spec(base, (exp - 1) as nat).mul_spec(base)
    }
}

/// Zero is also the identity on the left.
pub proof fn lemma_zero_add<F: Scalar>(a: F)
    requires
        a.valid(),
    ensures
        F::zero_spec().add_spec(a) == a,
{
    F::lemma_identities_valid();
    F::lemma_add_commutative(F::zero_spec(), a);
    F::lemma_add_zero(a);
}

/// A common summand on the right can be cancelled.
pub proof fn lemma_add_cancel<F: Scalar>(a: F, b: F, c: F)
    requires
        a.valid(),
        b.valid(),
        c.valid(),
        a.add_spec(c) == b.add_spec(c),
    ensures
        a == b,
{
    F::lemma_sub_inverse(a, c);
    F::lemma_sub_inverse(b, c);
}

/// An element minus itself is zero.
pub proof fn lemma_sub_self<F: Scalar>(a: F)
    requires
        a.valid(),
    ensures
        a.sub_spec(a) == F::zero_spec(),
{
    F::lemma_identities_valid();
    lemma_zero_add(a);
    F::lemma_sub_inverse(F::zero_spec(), a);
}

/// Any product with zero is zero.
pub proof fn lemma_mul_zero<F: Scalar>(a: F)
    requires
        a.valid(),
    ensures
        a.mul_spec(F::zero_spec()) == F::zero_spec(),
        F::zero_spec().mul_spec(a) == F::zero_spec(),
{
    let zero = F::zero_spec();
    let p = a.mul_spec(zero);
    F::lemma_identities_valid();
    F::lemma_closed(a, zero);
    F::lemma_add_zero(zero);
    F::lemma_distributive(a, zero, zero);
    // p + p == a * (0 + 0) == p == 0 + p
    lemma_zero_add(p);
    lemma_add_cancel(p, zero, p);
    F::lemma_mul_commutative(a, zero);
}

/// Powers of a valid element are valid.
pub proof fn lemma_pow_valid<F: Scalar>(base: F, exp: nat)
    requires
        base.valid(),
    ensures
        pow_spec(base, exp).valid(),
    decreases exp,
{
    F::lemma_identities_valid();
    if exp > 0 {
        lemma_pow_valid(base, (exp - 1) as nat);
        F::lemma_closed(pow_spec(base, (exp - 1) as nat), base);
    }
}

} // verus!
