//! Inversion of many elements at the cost of one.

use vstd::prelude::*;
use vstd::arithmetic::div_mod::{lemma_mul_mod_noop_left, lemma_mul_mod_noop_right};
use crate::field::{Engine, PrimeField, inverse_or_zero, lemma_inverse_or_zero,
    lemma_residues_in_range, residues};
use crate::primes::{is_prime, lemma_product_is_not_zero};
use crate::sbox::{InversionSBox, SBox, map_inverse};

verus! {

/// How many of the first `n` entries of `s` are not zero.
spec fn nonzero_count(s: Seq<int>, n: int) -> nat
    decreases n,
{
    if n <= 0 {
        0
    } else if s[n - 1] == 0 {
        nonzero_count(s, n - 1)
    } else {
        nonzero_count(s, n - 1) + 1
    }
}

/// The product modulo `p` of those of the first `n` entries of `s` that are not zero.
spec fn nonzero_product(p: int, s: Seq<int>, n: int) -> int
    decreases n,
{
    if n <= 0 {
        1
    } else if s[n - 1] == 0 {
        nonzero_product(p, s, n - 1)
    } else {
        (nonzero_product(p, s, n - 1) * s[n - 1]) % p
    }
}

/// Whether `products` holds, for each entry among the first `n` of `s` that is not zero, the
/// product up to and with it, in order.
spec fn running_products<F: PrimeField>(products: Seq<F>, s: Seq<int>, n: int) -> bool {
    &&& products.len() == nonzero_count(s, n)
    &&& forall|k: int|
        0 <= k < n && s[k] != 0 ==> 0 <= nonzero_count(s, k) < products.len()
            && products[#[trigger] nonzero_count(s, k) as int].residue() == nonzero_product(
            F::modulus(),
            s,
            k + 1,
        )
}

/// One step back: from the inverse `t` of `a g`, an inverse of `g` and one of `a`.
proof fn lemma_split_inverse(p: int, t: int, a: int, g: int)
    requires
        1 < p,
        (t * ((a * g) % p)) % p == 1,
    ensures
        (g * ((t * a) % p)) % p == 1,
        (((t * g) % p) * a) % p == 1,
{
    lemma_mul_mod_noop_right(t, a * g, p);
    lemma_mul_mod_noop_right(g, t * a, p);
    lemma_mul_mod_noop_left(t * g, a, p);
    assert(g * (t * a) == t * (a * g) && (t * g) * a == t * (a * g)) by (nonlinear_arith);
}

/// The product of a prefix that ends in zeros is the product up to its last other entry.
proof fn lemma_last_product<F: PrimeField>(products: Seq<F>, s: Seq<int>, n: int, m: int)
    requires
        0 <= m <= n,
        running_products(products, s, n),
        nonzero_count(s, m) > 0,
    ensures
        nonzero_count(s, m) <= products.len(),
        products[nonzero_count(s, m) - 1].residue() == nonzero_product(F::modulus(), s, m),
    decreases m,
{
    if s[m - 1] == 0 {
        lemma_last_product(products, s, n, m - 1);
    } else {
        assert(nonzero_count(s, m - 1) < products.len());
    }
}

/// Inverts every element of `v` in place, zeros excepted, which stay.
pub fn batch_inversion<E: Engine>(v: &mut [E::Fr])
    ensures
        final(v)@.len() == old(v)@.len(),
        residues(final(v)@) == map_inverse(E::Fr::modulus(), residues(old(v)@)),
        forall|i: int|
            0 <= i < old(v)@.len() ==> if old(v)@[i].residue() == 0 {
                (#[trigger] final(v)@[i]).residue() == 0
            } else {
                (old(v)@[i].residue() * final(v)@[i].residue()) % E::Fr::modulus() == 1
            },
{
    let n = v.len();
    let ghost p = E::Fr::modulus();
    let ghost before = v@;
    let ghost s = residues(v@);

    // The running products of the elements that are not zero: a, ab, abc, ...
    let mut products: Vec<E::Fr> = Vec::with_capacity(n);
    let mut tmp = <E::Fr as PrimeField>::one();
    proof {
        <E::Fr as PrimeField>::modulus_is_prime();
    }
    let mut i: usize = 0;
    while i < n
        invariant
            i <= n,
            n == v@.len(),
            v@ == before,
            s == residues(before),
            is_prime(p),
            p == E::Fr::modulus(),
            tmp.residue() == nonzero_product(p, s, i as int),
            tmp.residue() != 0,
            running_products(products@, s, i as int),
        decreases n - i,
    {
        let g = v[i];
        if !g.is_zero() {
            let ghost shorter = products@;
            proof {
                tmp.residue_in_range();
                g.residue_in_range();
                lemma_product_is_not_zero(p, tmp.residue(), g.residue());
            }
            tmp.mul_assign(&g);
            products.push(tmp);
            proof {
                assert forall|k: int| 0 <= k < i + 1 && s[k] != 0 implies 0 <= nonzero_count(s, k)
                    < products@.len() && products@[#[trigger] nonzero_count(
                    s,
                    k,
                ) as int].residue() == nonzero_product(p, s, k + 1) by {
                    if k < i {
                        assert(products@[nonzero_count(s, k) as int] == shorter[nonzero_count(
                            s,
                            k,
                        ) as int]);
                    }
                }
            }
        }
        i += 1;
    }

    // Not zero, being a product of elements that are not.
    tmp = tmp.inverse().unwrap();
    proof {
        let q = nonzero_product(p, s, n as int);
        assert(q * tmp.residue() == tmp.residue() * q) by (nonlinear_arith);
    }

    // Backwards, peeling off one element at a time.
    let mut left: usize = products.len();
    while i > 0
        invariant
            i <= n,
            n == v@.len(),
            n == before.len(),
            s == residues(before),
            1 < p,
            p == E::Fr::modulus(),
            running_products(products@, s, n as int),
            left == nonzero_count(s, i as int),
            left <= products@.len(),
            (tmp.residue() * nonzero_product(p, s, i as int)) % p == 1,
            forall|j: int| 0 <= j < i ==> v@[j] == before[j],
            forall|j: int|
                i <= j < n ==> if s[j] == 0 {
                    (#[trigger] v@[j]).residue() == 0
                } else {
                    (s[j] * v@[j].residue()) % p == 1
                },
        decreases i,
    {
        i -= 1;
        let mut g = v[i];
        if !g.is_zero() {
            left -= 1;
            let ghost head = nonzero_product(p, s, i as int);
            let mut newtmp = tmp;
            newtmp.mul_assign(&g);
            g = tmp;
            if left > 0 {
                proof {
                    lemma_last_product(products@, s, n as int, i as int);
                }
                g.mul_assign(&products[left - 1]);
            } else {
                let one = <E::Fr as PrimeField>::one();
                proof {
                    lemma_empty_product(p, s, i as int);
                }
                g.mul_assign(&one);
            }
            proof {
                lemma_split_inverse(p, tmp.residue(), head, s[i as int]);
            }
            v[i] = g;
            tmp = newtmp;
        }
    }
    proof {
        lemma_residues_in_range(v@);
        lemma_residues_in_range(before);
        assert forall|j: int| 0 <= j < n implies #[trigger] residues(v@)[j] == inverse_or_zero(
            p,
            s[j],
        ) by {
            let x = v@[j].residue();
            v@[j].residue_in_range();
            if s[j] != 0 {
                lemma_inverse_or_zero(p, s[j], x);
            }
        }
        assert(residues(v@) =~= map_inverse(p, s));
        assert forall|j: int| 0 <= j < n implies before[j].residue() == s[j] by {}
    }
}

/// With no entry but zeros the product is the empty one.
proof fn lemma_empty_product(p: int, s: Seq<int>, n: int)
    requires
        nonzero_count(s, n) == 0,
    ensures
        nonzero_product(p, s, n) == 1,
    decreases n,
{
    if n > 0 {
        lemma_empty_product(p, s, n - 1);
    }
}

impl<E: Engine> SBox<E> for InversionSBox<E> {
    open spec fn accepts(&self, n: nat) -> bool {
        true
    }

    open spec fn substitution(&self, s: Seq<int>) -> Seq<int> {
        map_inverse(E::Fr::modulus(), s)
    }

    fn apply(&self, elements: &mut [E::Fr]) {
        batch_inversion::<E>(elements);
    }
}

} // verus!
