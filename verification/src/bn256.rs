//! The scalar field of the BN256 curve, with the arithmetic of the `pairing_ce` crate.

use pairing_ce::ff::{Field as _, PrimeField as _};
use rand::{ChaChaRng, Rand as _};
use vstd::prelude::*;
use vstd::arithmetic::div_mod::{lemma_mod_bound, lemma_small_mod};
use vstd::arithmetic::power::pow;
use crate::bn256_modulus::lemma_fr_modulus_is_prime;
use crate::field::{Engine, PrimeField};
use crate::mds::FieldRng;

verus! {

/// The number of elements of the field.
pub open spec fn fr_modulus() -> int {
    21888242871839275222246405745257275088548364400416034343698204186575808495617int
}

/// The number that four limbs spell, the least significant one first.
pub open spec fn limbs_value(limbs: [u64; 4]) -> int {
    limbs@[0] + 0x1_0000_0000_0000_0000int * limbs@[1]
        + 0x1_0000_0000_0000_0000_0000_0000_0000_0000int * limbs@[2]
        + 0x1_0000_0000_0000_0000_0000_0000_0000_0000_0000_0000_0000_0000int * limbs@[3]
}

/// A number of 256 bits in four limbs, the least significant one first.
#[derive(Clone, Copy, Debug, PartialEq, Eq)]
pub struct FrRepr(pub [u64; 4]);

/// An element of the field, held as its residue.
#[derive(Clone, Copy, Debug, PartialEq, Eq)]
pub struct Fr {
    limbs: [u64; 4],
}

impl FrRepr {
    /// The number.
    pub open spec fn value(self) -> nat {
        limbs_value(self.0) as nat
    }
}

/// `PrimeField::from_repr` of `pairing_ce::bn256::Fr`, asked only whether it takes the number: it
/// takes those below the number of elements and no others.
#[verifier::external_body]
fn fr_is_element(limbs: [u64; 4]) -> (r: bool)
    ensures
        r == (limbs_value(limbs) < fr_modulus()),
{
    pairing_ce::bn256::Fr::from_repr(pairing_ce::bn256::FrRepr(limbs)).is_ok()
}

/// `Field::add_assign` of `pairing_ce::bn256::Fr`: the sum, reduced.
#[verifier::external_body]
fn fr_sum(a: [u64; 4], b: [u64; 4]) -> (r: [u64; 4])
    requires
        limbs_value(a) < fr_modulus(),
        limbs_value(b) < fr_modulus(),
    ensures
        limbs_value(r) == (limbs_value(a) + limbs_value(b)) % fr_modulus(),
{
    let mut x = pairing_ce::bn256::Fr::from_repr(pairing_ce::bn256::FrRepr(a)).unwrap();
    let y = pairing_ce::bn256::Fr::from_repr(pairing_ce::bn256::FrRepr(b)).unwrap();
    x.add_assign(&y);
    x.into_repr().0
}

/// `Field::sub_assign` of `pairing_ce::bn256::Fr`: the difference, reduced.
#[verifier::external_body]
fn fr_difference(a: [u64; 4], b: [u64; 4]) -> (r: [u64; 4])
    requires
        limbs_value(a) < fr_modulus(),
        limbs_value(b) < fr_modulus(),
    ensures
        limbs_value(r) == (limbs_value(a) - limbs_value(b)) % fr_modulus(),
{
    let mut x = pairing_ce::bn256::Fr::from_repr(pairing_ce::bn256::FrRepr(a)).unwrap();
    let y = pairing_ce::bn256::Fr::from_repr(pairing_ce::bn256::FrRepr(b)).unwrap();
    x.sub_assign(&y);
    x.into_repr().0
}

/// `Field::mul_assign` of `pairing_ce::bn256::Fr`: the product, reduced.
#[verifier::external_body]
fn fr_product(a: [u64; 4], b: [u64; 4]) -> (r: [u64; 4])
    requires
        limbs_value(a) < fr_modulus(),
        limbs_value(b) < fr_modulus(),
    ensures
        limbs_value(r) == (limbs_value(a) * limbs_value(b)) % fr_modulus(),
{
    let mut x = pairing_ce::bn256::Fr::from_repr(pairing_ce::bn256::FrRepr(a)).unwrap();
    let y = pairing_ce::bn256::Fr::from_repr(pairing_ce::bn256::FrRepr(b)).unwrap();
    x.mul_assign(&y);
    x.into_repr().0
}

/// `Field::square` of `pairing_ce::bn256::Fr`: the product of the element with itself, reduced.
#[verifier::external_body]
fn fr_square(a: [u64; 4]) -> (r: [u64; 4])
    requires
        limbs_value(a) < fr_modulus(),
    ensures
        limbs_value(r) == (limbs_value(a) * limbs_value(a)) % fr_modulus(),
{
    let mut x = pairing_ce::bn256::Fr::from_repr(pairing_ce::bn256::FrRepr(a)).unwrap();
    x.square();
    x.into_repr().0
}

/// `Field::inverse` of `pairing_ce::bn256::Fr`: the residue that gives one when multiplied by the
/// argument, for every argument but zero.
#[verifier::external_body]
fn fr_inverse(a: [u64; 4]) -> (r: Option<[u64; 4]>)
    requires
        limbs_value(a) < fr_modulus(),
    ensures
        r is Some <==> limbs_value(a) != 0,
        r matches Some(y) ==> limbs_value(y) < fr_modulus() && (limbs_value(a) * limbs_value(y))
            % fr_modulus() == 1,
{
    let x = pairing_ce::bn256::Fr::from_repr(pairing_ce::bn256::FrRepr(a)).unwrap();
    match x.inverse() {
        Some(y) => Some(y.into_repr().0),
        None => None,
    }
}

/// `Field::pow` of `pairing_ce::bn256::Fr`: the power, reduced. Its exponent is given in limbs, the
/// least significant one first.
#[verifier::external_body]
fn fr_power(a: [u64; 4], exp: [u64; 4]) -> (r: [u64; 4])
    requires
        limbs_value(a) < fr_modulus(),
    ensures
        limbs_value(r) == pow(limbs_value(a), limbs_value(exp) as nat) % fr_modulus(),
{
    let x = pairing_ce::bn256::Fr::from_repr(pairing_ce::bn256::FrRepr(a)).unwrap();
    x.pow(exp).into_repr().0
}

/// The ChaCha generator of the `rand` crate.
#[verifier::external_type_specification]
#[verifier::external_body]
pub struct ExChaChaRng(rand::ChaChaRng);

/// `Rand::rand` of `pairing_ce::bn256::Fr` on a generator of the `rand` crate: some element of the
/// field. Which one depends on the state of the generator, which is hidden here; that, and what
/// becomes of the generator, is left open.
#[verifier::external_body]
fn fr_random(rng: &mut ChaChaRng) -> (r: [u64; 4])
    ensures
        limbs_value(r) < fr_modulus(),
{
    pairing_ce::bn256::Fr::rand(rng).into_repr().0
}

/// Limbs that spell the same number are the same.
proof fn lemma_limbs_value_injective(a: [u64; 4], b: [u64; 4])
    requires
        limbs_value(a) == limbs_value(b),
    ensures
        a@[0] == b@[0],
        a@[1] == b@[1],
        a@[2] == b@[2],
        a@[3] == b@[3],
{
}

impl Fr {
    #[verifier::type_invariant]
    closed spec fn is_reduced(self) -> bool {
        limbs_value(self.limbs) < fr_modulus()
    }

    /// A number held by valid limbs is its own residue.
    proof fn lemma_residue(self)
        requires
            self.is_reduced(),
        ensures
            self.residue() == limbs_value(self.limbs),
    {
        lemma_small_mod(limbs_value(self.limbs) as nat, fr_modulus() as nat);
    }

    /// The element with the given residue; none if the number is no residue.
    pub fn from_repr(repr: FrRepr) -> (r: Option<Fr>)
        ensures
            r is Some <==> repr.value() < fr_modulus(),
            r matches Some(x) ==> x.residue() == repr.value(),
    {
        if fr_is_element(repr.0) {
            let x = Fr { limbs: repr.0 };
            proof {
                x.lemma_residue();
            }
            Some(x)
        } else {
            None
        }
    }

    /// The residue of the element.
    pub fn into_repr(&self) -> (r: FrRepr)
        ensures
            r.value() == self.residue(),
    {
        proof {
            use_type_invariant(self);
            self.lemma_residue();
        }
        FrRepr(self.limbs)
    }
}

impl PrimeField for Fr {
    type Repr = FrRepr;

    open spec fn modulus() -> int {
        fr_modulus()
    }

    closed spec fn residue(self) -> int {
        limbs_value(self.limbs) % fr_modulus()
    }

    open spec fn repr_value(repr: FrRepr) -> nat {
        repr.value()
    }

    proof fn modulus_is_prime() {
        lemma_fr_modulus_is_prime();
    }

    proof fn residue_in_range(self) {
        lemma_mod_bound(limbs_value(self.limbs), fr_modulus());
    }

    fn zero() -> (r: Self) {
        Fr { limbs: [0, 0, 0, 0] }
    }

    fn one() -> (r: Self) {
        Fr { limbs: [1, 0, 0, 0] }
    }

    fn is_zero(&self) -> (r: bool) {
        proof {
            use_type_invariant(self);
            self.lemma_residue();
        }
        self.limbs[0] == 0 && self.limbs[1] == 0 && self.limbs[2] == 0 && self.limbs[3] == 0
    }

    fn equals(&self, other: &Self) -> (r: bool) {
        proof {
            use_type_invariant(self);
            use_type_invariant(other);
            self.lemma_residue();
            other.lemma_residue();
            if limbs_value(self.limbs) == limbs_value(other.limbs) {
                lemma_limbs_value_injective(self.limbs, other.limbs);
            }
        }
        self.limbs[0] == other.limbs[0] && self.limbs[1] == other.limbs[1] && self.limbs[2]
            == other.limbs[2] && self.limbs[3] == other.limbs[3]
    }

    fn add_assign(&mut self, other: &Self) {
        proof {
            use_type_invariant(&*self);
            use_type_invariant(other);
            self.lemma_residue();
            other.lemma_residue();
        }
        let limbs = fr_sum(self.limbs, other.limbs);
        *self = Fr { limbs };
        proof {
            self.lemma_residue();
        }
    }

    fn sub_assign(&mut self, other: &Self) {
        proof {
            use_type_invariant(&*self);
            use_type_invariant(other);
            self.lemma_residue();
            other.lemma_residue();
        }
        let limbs = fr_difference(self.limbs, other.limbs);
        *self = Fr { limbs };
        proof {
            self.lemma_residue();
        }
    }

    fn mul_assign(&mut self, other: &Self) {
        proof {
            use_type_invariant(&*self);
            use_type_invariant(other);
            self.lemma_residue();
            other.lemma_residue();
        }
        let limbs = fr_product(self.limbs, other.limbs);
        *self = Fr { limbs };
        proof {
            self.lemma_residue();
        }
    }

    fn square(&mut self) {
        proof {
            use_type_invariant(&*self);
            self.lemma_residue();
        }
        let limbs = fr_square(self.limbs);
        *self = Fr { limbs };
        proof {
            self.lemma_residue();
        }
    }

    fn inverse(&self) -> (r: Option<Self>) {
        proof {
            use_type_invariant(self);
            self.lemma_residue();
        }
        match fr_inverse(self.limbs) {
            Some(limbs) => {
                let y = Fr { limbs };
                proof {
                    y.lemma_residue();
                }
                Some(y)
            },
            None => None,
        }
    }

    fn pow(&self, exp: &FrRepr) -> (r: Self) {
        proof {
            use_type_invariant(self);
            self.lemma_residue();
        }
        let r = Fr { limbs: fr_power(self.limbs, exp.0) };
        proof {
            r.lemma_residue();
        }
        r
    }
}

impl FieldRng<Fr> for ChaChaRng {
    fn gen(&mut self) -> (r: Fr) {
        Fr { limbs: fr_random(self) }
    }
}

/// The scalar field of the BN256 curve as the field to hash over.
#[derive(Clone, Copy, Debug)]
pub struct Bn256;

impl Engine for Bn256 {
    type Fr = Fr;
}

} // verus!
