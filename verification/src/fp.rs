//! The integers modulo the Mersenne prime 2^61 - 1, as a scalar type whose
//! ring laws are proved rather than assumed.

use vstd::arithmetic::div_mod::{
    lemma_add_mod_noop, lemma_mod_add_multiples_vanish, lemma_mul_mod_noop_general, lemma_small_mod,
    lemma_sub_mod_noop,
};
use vstd::arithmetic::mul::{lemma_mul_is_associative, lemma_mul_is_distributive_add};
use vstd::prelude::*;

use crate::field::Scalar;

verus! {

/// The modulus, 2^61 - 1.
pub const MODULUS: u64 = 2305843009213693951;

/// An integer modulo [`MODULUS`].
///
/// Values made by [`Fp::new`] and by the arithmetic are reduced; the
/// arithmetic accepts unreduced values too and reduces them.
#[derive(Clone, Copy, Debug, PartialEq, Eq, Structural)]
pub struct Fp {
    /// The representative.
    pub v: u64,
}

impl Fp {
    /// The element that `x` reduces to.
    pub open spec fn new_spec(x: u64) -> Fp {
        Fp { v: (x % MODULUS) as u64 }
    }

    /// Returns `x` reduced modulo [`MODULUS`].
    pub fn new(x: u64) -> (r: Fp)
        ensures
            r == Fp::new_spec(x),
            r.valid(),
    {
        Fp { v: x % MODULUS }
    }

    /// Returns the representative.
    pub fn to_u64(&self) -> (r: u64)
        ensures
            r == self.v,
    {
        self.v
    }
}

impl Scalar for Fp {
    open spec fn valid(self) -> bool {
        self.v < MODULUS
    }

    open spec fn zero_spec() -> Self {
        Fp { v: 0 }
    }

    open spec fn one_spec() -> Self {
        Fp { v: 1 }
    }

    open spec fn add_spec(self, rhs: Self) -> Self {
        Fp { v: ((self.v + rhs.v) % (MODULUS as int)) as u64 }
    }

    open spec fn sub_spec(self, rhs: Self) -> Self {
        Fp { v: ((self.v - rhs.v) % (MODULUS as int)) as u64 }
    }

    open spec fn mul_spec(self, rhs: Self) -> Self {
        Fp { v: ((self.v * rhs.v) % (MODULUS as int)) as u64 }
    }

    proof fn lemma_identities_valid() {
    }

    proof fn lemma_closed(a: Self, b: Self) {
    }

    proof fn lemma_add_commutative(a: Self, b: Self) {
    }

    proof fn lemma_add_associative(a: Self, b: Self, c: Self) {
        let m = MODULUS as int;
        lemma_small_mod(a.v as nat, m as nat);
        lemma_small_mod(c.v as nat, m as nat);
        lemma_add_mod_noop(a.v + b.v, c.v as int, m);
        lemma_add_mod_noop(a.v as int, b.v + c.v, m);
    }

    proof fn lemma_add_zero(a: Self) {
        lemma_small_mod(a.v as nat, MODULUS as nat);
    }

    proof fn lemma_sub_inverse(a: Self, b: Self) {
        let m = MODULUS as int;
        lemma_small_mod(a.v as nat, m as nat);
        lemma_small_mod(b.v as nat, m as nat);
        lemma_sub_mod_noop(a.v + b.v, b.v as int, m);
        lemma_add_mod_noop(a.v - b.v, b.v as int, m);
    }

    proof fn lemma_mul_commutative(a: Self, b: Self) {
        assert(a.v * b.v == b.v * a.v) by (nonlinear_arith);
    }

    proof fn lemma_mul_associative(a: Self, b: Self, c: Self) {
        let m = MODULUS as int;
        lemma_mul_mod_noop_general(a.v * b.v, c.v as int, m);
        lemma_mul_mod_noop_general(a.v as int, b.v * c.v, m);
        lemma_mul_is_associative(a.v as int, b.v as int, c.v as int);
    }

    proof fn lemma_mul_one(a: Self) {
        assert(a.v * 1 == a.v);
        lemma_small_mod(a.v as nat, MODULUS as nat);
    }

    proof fn lemma_distributive(a: Self, b: Self, c: Self) {
        let m = MODULUS as int;
        lemma_mul_mod_noop_general(a.v as int, b.v + c.v, m);
        lemma_add_mod_noop(a.v * b.v, a.v * c.v, m);
        lemma_mul_is_distributive_add(a.v as int, b.v as int, c.v as int);
    }

    fn zero() -> (r: Self) {
        Fp { v: 0 }
    }

    fn one() -> (r: Self) {
        Fp { v: 1 }
    }

    fn add(&self, rhs: &Self) -> (r: Self) {
        let sum: u128 = self.v as u128 + rhs.v as u128;
        Fp { v: (sum % (MODULUS as u128)) as u64 }
    }

    fn sub(&self, rhs: &Self) -> (r: Self) {
        let a: u64 = self.v % MODULUS;
        let b: u64 = rhs.v % MODULUS;
        proof {
            let m = MODULUS as int;
            lemma_sub_mod_noop(self.v as int, rhs.v as int, m);
            if a >= b {
                lemma_small_mod((a - b) as nat, m as nat);
            } else {
                lemma_mod_add_multiples_vanish(a - b, m);
                lemma_small_mod((a - b + m) as nat, m as nat);
            }
        }
        if a >= b {
            Fp { v: a - b }
        } else {
            Fp { v: a + (MODULUS - b) }
        }
    }

    fn mul(&self, rhs: &Self) -> (r: Self) {
        assert(self.v * rhs.v <= u64::MAX * u64::MAX) by (nonlinear_arith)
            requires
                self.v <= u64::MAX,
                rhs.v <= u64::MAX,
        ;
        let product: u128 = self.v as u128 * rhs.v as u128;
        Fp { v: (product % (MODULUS as u128)) as u64 }
    }

    fn is_zero(&self) -> (r: bool) {
        self.v == 0
    }
}

} // verus!
