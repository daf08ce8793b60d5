//! Prime fields: the interface that the hash is written against, and the arithmetic of
//! residues in which every contract of the crate is stated.

use vstd::prelude::*;
use vstd::arithmetic::div_mod::{lemma_mul_mod_noop_general, lemma_small_mod};
use vstd::arithmetic::power::{lemma_pow_adds, pow};
use crate::primes::is_prime;

verus! {

/// An element of a prime field.
///
/// An element is modelled by its residue, the representative in `0 .. Self::modulus()` of the
/// class that it stands for.
pub trait PrimeField: Sized + Copy {
    /// An unsigned integer, as `pow` takes it for its exponent.
    type Repr: Copy;

    /// The number of elements of the field.
    spec fn modulus() -> int;

    /// The representative of this element in `0 .. Self::modulus()`.
    spec fn residue(self) -> int;

    /// The number that `repr` holds.
    spec fn repr_value(repr: Self::Repr) -> nat;

    /// The number of elements is a prime.
    proof fn modulus_is_prime()
        ensures
            is_prime(Self::modulus()),
    ;

    /// Every element has its residue in range.
    proof fn residue_in_range(self)
        ensures
            1 < Self::modulus(),
            0 <= self.residue() < Self::modulus(),
    ;

    /// The additive identity.
    fn zero() -> (r: Self)
        ensures
            r.residue() == 0,
    ;

    /// The multiplicative identity.
    fn one() -> (r: Self)
        ensures
            r.residue() == 1,
    ;

    /// Whether this is the additive identity.
    fn is_zero(&self) -> (r: bool)
        ensures
            r == (self.residue() == 0),
    ;

    /// Whether the two elements are the same.
    fn equals(&self, other: &Self) -> (r: bool)
        ensures
            r == (self.residue() == other.residue()),
    ;

    /// Adds `other` to this element.
    fn add_assign(&mut self, other: &Self)
        ensures
            final(self).residue() == (old(self).residue() + other.residue()) % Self::modulus(),
    ;

    /// Subtracts `other` from this element.
    fn sub_assign(&mut self, other: &Self)
        ensures
            final(self).residue() == (old(self).residue() - other.residue()) % Self::modulus(),
    ;

    /// Multiplies this element by `other`.
    fn mul_assign(&mut self, other: &Self)
        ensures
            final(self).residue() == (old(self).residue() * other.residue()) % Self::modulus(),
    ;

    /// Multiplies this element by itself.
    fn square(&mut self)
        ensures
            final(self).residue() == (old(self).residue() * old(self).residue()) % Self::modulus(),
    ;

    /// The multiplicative inverse, which every element but zero has.
    fn inverse(&self) -> (r: Option<Self>)
        ensures
            r is Some <==> self.residue() != 0,
            r matches Some(y) ==> (self.residue() * y.residue()) % Self::modulus() == 1,
    ;

    /// This element raised to the power of `exp`.
    fn pow(&self, exp: &Self::Repr) -> (r: Self)
        ensures
            r.residue() == pow(self.residue(), Self::repr_value(*exp)) % Self::modulus(),
    ;
}

/// A choice of the field to hash over.
pub trait Engine: Sized + Clone {
    /// The field.
    type Fr: PrimeField;
}

/// The residues of a sequence of elements, one by one.
pub open spec fn residues<F: PrimeField>(s: Seq<F>) -> Seq<int> {
    Seq::new(s.len(), |i: int| s[i].residue())
}

/// Whether every entry of `s` is a residue modulo `p`.
pub open spec fn in_range(p: int, s: Seq<int>) -> bool {
    forall|i: int| 0 <= i < s.len() ==> 0 <= #[trigger] s[i] < p
}

/// The residue that gives one when multiplied by `x`, and zero for zero.
pub open spec fn inverse_or_zero(p: int, x: int) -> int {
    if x == 0 {
        0
    } else {
        choose|y: int| 0 <= y < p && #[trigger] (x * y) % p == 1
    }
}

/// The residues of elements are in range.
pub proof fn lemma_residues_in_range<F: PrimeField>(s: Seq<F>)
    ensures
        in_range(F::modulus(), residues(s)),
{
    assert forall|i: int| 0 <= i < residues(s).len() implies 0 <= #[trigger] residues(s)[i]
        < F::modulus() by {
        s[i].residue_in_range();
    }
}

/// The residues of a sequence are those of its elements, one for each and in their order.
pub proof fn law_residues_are_those_of_the_elements<F: PrimeField>(s: Seq<F>, i: int)
    requires
        0 <= i < s.len(),
    ensures
        residues(s).len() == s.len(),
        residues(s)[i] == s[i].residue(),
{
}

/// Residues are in range from zero to below the modulus, every one of them.
pub proof fn law_range_of_residues(p: int, s: Seq<int>)
    ensures
        in_range(p, s) <==> (forall|i: int| 0 <= i < s.len() ==> 0 <= #[trigger] s[i] < p),
{
}

/// Two inverses of one residue are the same.
pub proof fn lemma_inverse_unique(p: int, x: int, y: int, z: int)
    requires
        1 < p,
        0 <= y < p,
        0 <= z < p,
        (x * y) % p == 1,
        (x * z) % p == 1,
    ensures
        y == z,
{
    // y = y (x z) = z (x y) = z, modulo p
    lemma_mul_mod_noop_general(y, x * z, p);
    lemma_mul_mod_noop_general(z, x * y, p);
    assert(y * (x * z) == z * (x * y)) by (nonlinear_arith);
    lemma_small_mod(y as nat, p as nat);
    lemma_small_mod(z as nat, p as nat);
    assert(y * 1 == y && z * 1 == z);
}

/// An inverse that has been found is the one that `inverse_or_zero` speaks of.
pub proof fn lemma_inverse_or_zero(p: int, x: int, y: int)
    requires
        1 < p,
        x != 0,
        0 <= y < p,
        (x * y) % p == 1,
    ensures
        inverse_or_zero(p, x) == y,
{
    let z = inverse_or_zero(p, x);
    assert(0 <= z < p && (x * z) % p == 1);
    lemma_inverse_unique(p, x, y, z);
}

/// A product of reduced powers is the reduced power of the sum of the exponents.
pub proof fn lemma_pow_mod_mul(p: int, x: int, e: nat, f: nat)
    requires
        1 < p,
    ensures
        ((pow(x, e) % p) * (pow(x, f) % p)) % p == pow(x, e + f) % p,
{
    lemma_mul_mod_noop_general(pow(x, e), pow(x, f), p);
    lemma_pow_adds(x, e, f);
}

} // verus!
