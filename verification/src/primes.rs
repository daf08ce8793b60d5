//! Arithmetic modulo a prime.

use vstd::prelude::*;
use vstd::arithmetic::div_mod::{lemma_add_mod_noop, lemma_fundamental_div_mod,
    lemma_mod_add_multiples_vanish, lemma_mod_bound, lemma_mod_multiples_vanish,
    lemma_mul_mod_noop_left, lemma_mul_mod_noop_right, lemma_small_mod, lemma_sub_mod_noop};

verus! {

/// Whether `p` is a prime.
pub open spec fn is_prime(p: int) -> bool {
    &&& 1 < p
    &&& forall|d: int| 1 < d < p ==> #[trigger] (p % d) != 0
}

/// Every residue but zero has an inverse modulo a prime.
pub proof fn lemma_inverse_exists(p: int, a: int) -> (y: int)
    requires
        is_prime(p),
        0 < a < p,
    ensures
        0 <= y < p,
        (a * y) % p == 1,
    decreases a,
{
    if a == 1 {
        lemma_small_mod(1, p as nat);
        1
    } else {
        // p = q a + r with 0 < r < a, so -q z inverts a where z inverts r.
        let q = p / a;
        let r = p % a;
        lemma_fundamental_div_mod(p, a);
        lemma_mod_bound(p, a);
        let z = lemma_inverse_exists(p, r);
        let y = (-(q * z)) % p;
        lemma_mod_bound(-(q * z), p);
        lemma_mul_mod_noop_right(a, -(q * z), p);
        assert(a * -(q * z) == p * -z + r * z) by (nonlinear_arith)
            requires
                p == a * q + r,
        ;
        lemma_mod_multiples_vanish(-z, r * z, p);
        y
    }
}

/// Sums and differences of multiples are multiples.
pub proof fn lemma_multiples_add(p: int, a: int, b: int)
    requires
        0 < p,
        a % p == 0,
        b % p == 0,
    ensures
        (a + b) % p == 0,
        (a - b) % p == 0,
{
    lemma_add_mod_noop(a, b, p);
    lemma_sub_mod_noop(a, b, p);
    lemma_small_mod(0, p as nat);
}

/// Products of a multiple are multiples.
pub proof fn lemma_multiples_mul(p: int, a: int, b: int)
    requires
        0 < p,
        a % p == 0,
    ensures
        (a * b) % p == 0,
        (b * a) % p == 0,
{
    lemma_mul_mod_noop_left(a, b, p);
    lemma_mul_mod_noop_right(b, a, p);
    assert(0 * b == 0 && b * 0 == 0);
    lemma_small_mod(0, p as nat);
}

/// A prime that divides a product divides a factor.
pub proof fn lemma_cancel(p: int, a: int, b: int)
    requires
        is_prime(p),
        (a * b) % p == 0,
        a % p != 0,
    ensures
        b % p == 0,
{
    lemma_mod_bound(a, p);
    let z = lemma_inverse_exists(p, a % p);
    // b = (a z) b = z (a b) = 0, modulo p
    lemma_mul_mod_noop_left(a, z, p);
    lemma_mul_mod_noop_left(a * z, b, p);
    lemma_multiples_mul(p, a * b, z);
    assert((a * z) * b == (a * b) * z) by (nonlinear_arith);
    assert(1 * b == b);
}

/// A product modulo a prime is zero only where a factor is.
pub proof fn lemma_product_is_not_zero(p: int, a: int, b: int)
    requires
        is_prime(p),
        0 < a < p,
        0 < b < p,
    ensures
        (a * b) % p != 0,
{
    lemma_small_mod(a as nat, p as nat);
    lemma_small_mod(b as nat, p as nat);
    if (a * b) % p == 0 {
        lemma_cancel(p, a, b);
    }
}

/// Numbers with the same residue differ by a multiple.
pub proof fn lemma_equal_residues(p: int, a: int, b: int)
    requires
        0 < p,
        a % p == b % p,
    ensures
        (a - b) % p == 0,
{
    lemma_sub_mod_noop(a, b, p);
    assert(a % p - b % p == 0);
    lemma_small_mod(0, p as nat);
}

/// Two different residues have a difference that is not zero.
pub proof fn lemma_difference_is_not_zero(p: int, a: int, b: int)
    requires
        0 <= a < p,
        0 <= b < p,
        a != b,
    ensures
        (a - b) % p != 0,
{
    if a > b {
        lemma_small_mod((a - b) as nat, p as nat);
    } else {
        lemma_small_mod((a - b + p) as nat, p as nat);
        lemma_mod_add_multiples_vanish(a - b, p);
    }
}

/// What is one modulo `p` differs from one by a multiple.
pub proof fn lemma_one_mod(p: int, a: int)
    requires
        1 < p,
        a % p == 1,
    ensures
        (a - 1) % p == 0,
{
    lemma_small_mod(1, p as nat);
    lemma_small_mod(0, p as nat);
    lemma_sub_mod_noop(a, 1, p);
}

} // verus!
