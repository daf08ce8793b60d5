//! How a number is shown to be prime: by a residue whose powers are many.

use vstd::prelude::*;
use vstd::arithmetic::div_mod::{lemma_fundamental_div_mod, lemma_mod_bound,
    lemma_mod_multiples_vanish, lemma_mod_twice, lemma_mul_mod_noop_left, lemma_mul_mod_noop_right,
    lemma_small_mod, lemma_sub_mod_noop};
use vstd::arithmetic::mul::lemma_mul_is_associative;
use vstd::arithmetic::power::{lemma1_pow, lemma_pow_adds, lemma_pow_mod_noop, lemma_pow_multiplies,
    lemma_pow0, lemma_pow1, pow};
use vstd::set_lib::{lemma_int_range, lemma_len_subset, set_int_range};
use crate::primes::{is_prime, lemma_cancel, lemma_inverse_exists, lemma_multiples_mul,
    lemma_one_mod};

verus! {

/// The powers of one.
proof fn lemma_power_of_one(d: int, c: int, e: nat, k: nat)
    requires
        1 < d,
        pow(c, e) % d == 1,
    ensures
        pow(c, e * k) % d == 1,
{
    lemma_pow_multiplies(c, e, k);
    lemma_pow_mod_noop(pow(c, e), k, d);
    lemma1_pow(k);
    lemma_small_mod(1, d as nat);
}

/// Whether `f` is the least exponent, but for zero, to which `c` gives one modulo `d`.
pub open spec fn has_order(d: int, c: int, f: nat) -> bool {
    &&& 0 < f
    &&& pow(c, f) % d == 1
    &&& forall|m: nat| 0 < m < f ==> #[trigger] pow(c, m) % d != 1
}

/// The powers of a residue, up to its order, are all different, so there are no more of them than
/// there are residues.
proof fn lemma_order_bound(d: int, c: int, f: nat)
    requires
        1 < d,
        has_order(d, c, f),
    ensures
        f <= d,
{
    let powers = Seq::new(f, |i: int| pow(c, i as nat) % d);
    assert forall|i: int, j: int| 0 <= i < j < f implies powers[i] != powers[j] by {
        if powers[i] == powers[j] {
            // Both times c^(f - j): one side becomes c^f, the other c^(f - (j - i)).
            let rest = (f - j) as nat;
            lemma_pow_adds(c, i as nat, rest);
            lemma_pow_adds(c, j as nat, rest);
            lemma_mul_mod_noop_left(pow(c, i as nat), pow(c, rest), d);
            lemma_mul_mod_noop_left(pow(c, j as nat), pow(c, rest), d);
            assert(pow(c, (i + rest) as nat) % d != 1);
        }
    }
    assert(powers.no_duplicates());
    powers.unique_seq_to_set();
    lemma_int_range(0, d);
    assert forall|x: int| powers.to_set().contains(x) implies set_int_range(0, d).contains(x) by {
        let i = choose|i: int| 0 <= i < powers.len() && powers[i] == x;
        lemma_mod_bound(pow(c, i as nat), d);
    }
    lemma_len_subset(powers.to_set(), set_int_range(0, d));
}

/// One modulo `n` is one modulo any divisor of `n`.
proof fn lemma_one_modulo_divisor(n: int, d: int, x: int)
    requires
        1 < d,
        0 < n,
        n % d == 0,
        x % n == 1,
    ensures
        x % d == 1,
{
    let k = n / d;
    lemma_fundamental_div_mod(n, d);
    lemma_fundamental_div_mod(x, n);
    let q = x / n;
    assert(x == d * (k * q) + 1) by (nonlinear_arith)
        requires
            n == d * k,
            x == n * q + 1,
    ;
    lemma_mod_multiples_vanish(k * q, 1, d);
    lemma_small_mod(1, d as nat);
}

/// What differs from one by an invertible number is not one, modulo any divisor.
proof fn lemma_not_one_modulo_divisor(n: int, d: int, x: int, u: int)
    requires
        1 < d,
        0 < n,
        n % d == 0,
        (u * (x - 1)) % n == 1,
    ensures
        x % d != 1,
{
    lemma_one_modulo_divisor(n, d, u * (x - 1));
    if x % d == 1 {
        lemma_one_mod(d, x);
        lemma_multiples_mul(d, x - 1, u);
    }
}

/// A number is prime if, modulo each of its divisors, `c` has an order whose square exceeds the
/// number.
proof fn lemma_prime_by_order(n: int, c: int, f: nat)
    requires
        1 < n,
        n < f * f,
        forall|d: int| 1 < d && #[trigger] (n % d) == 0 ==> has_order(d, c, f),
    ensures
        is_prime(n),
{
    assert forall|d: int| 1 < d < n implies #[trigger] (n % d) != 0 by {
        if n % d == 0 {
            let e = n / d;
            lemma_fundamental_div_mod(n, d);
            assert(1 < e) by (nonlinear_arith)
                requires
                    n == d * e,
                    1 < d < n,
            ;
            assert(n == d * e + 0 && d * e == e * d) by (nonlinear_arith)
                requires
                    n == d * e,
            ;
            lemma_mod_multiples_vanish(d, 0, e);
            lemma_small_mod(0, e as nat);
            assert(n % e == 0);
            lemma_order_bound(d, c, f);
            lemma_order_bound(e, c, f);
            assert(f * f <= d * e) by (nonlinear_arith)
                requires
                    f <= d,
                    f <= e,
            ;
        }
    }
}

/// A power that is not one stays so where the exponent, but not `m`, has a prime factor: from
/// `c^m = 1` and `c^(q r) = 1` follows `c^r = 1` unless `q` divides `m`.
proof fn lemma_order_factor(d: int, c: int, q: nat, r: nat, m: nat)
    requires
        1 < d,
        is_prime(q as int),
        pow(c, q * r) % d == 1,
        pow(c, r) % d != 1,
        pow(c, m) % d == 1,
    ensures
        m % q == 0,
{
    if m % q != 0 {
        lemma_mod_bound(m as int, q as int);
        // m z = 1 + q k, so c^(r m z) = c^r (c^(q r))^k
        let z = lemma_inverse_exists(q as int, (m % q) as int) as nat;
        lemma_mul_mod_noop_left(m as int, z as int, q as int);
        let k = ((m * z) / q) as nat;
        lemma_fundamental_div_mod((m * z) as int, q as int);
        lemma_power_of_one(d, c, m, r * z);
        lemma_power_of_one(d, c, q * r, k);
        assert(m * (r * z) == r + (q * r) * k) by (nonlinear_arith)
            requires
                m * z == q * k + 1,
        ;
        lemma_pow_adds(c, r, (q * r) * k);
        lemma_mul_mod_noop_right(pow(c, r), pow(c, (q * r) * k), d);
        assert(pow(c, r) * 1 == pow(c, r));
    }
}

/// A number is prime if `c^q` is one modulo it, with a prime `q` whose square exceeds it, and
/// `c - 1` is invertible.
pub proof fn lemma_prime_by_prime_order(n: int, c: int, q: nat, u: int)
    requires
        1 < n < q * q,
        is_prime(q as int),
        pow(c, q) % n == 1,
        (u * (c - 1)) % n == 1,
    ensures
        is_prime(n),
{
    assert forall|d: int| 1 < d && #[trigger] (n % d) == 0 implies has_order(d, c, q) by {
        lemma_one_modulo_divisor(n, d, pow(c, q));
        lemma_not_one_modulo_divisor(n, d, c, u);
        lemma_pow1(c);
        assert forall|m: nat| 0 < m < q implies #[trigger] pow(c, m) % d != 1 by {
            if pow(c, m) % d == 1 {
                assert(q * 1 == q);
                lemma_order_factor(d, c, q, 1, m);
                lemma_small_mod(m, q);
            }
        }
    }
    lemma_prime_by_order(n, c, q);
}

/// A number is prime if `c^(q r)` is one modulo it, with two primes `q` and `r` the square of
/// whose product exceeds it, and `c^q - 1` and `c^r - 1` are invertible.
pub proof fn lemma_prime_by_composite_order(n: int, c: int, q: nat, r: nat, u: int, v: int)
    requires
        1 < n < (q * r) * (q * r),
        is_prime(q as int),
        is_prime(r as int),
        q % r != 0,
        pow(c, q * r) % n == 1,
        (u * (pow(c, q) - 1)) % n == 1,
        (v * (pow(c, r) - 1)) % n == 1,
    ensures
        is_prime(n),
{
    let f = q * r;
    assert(f == r * q && 0 < f) by (nonlinear_arith)
        requires
            f == q * r,
            0 < q,
            0 < r,
    ;
    assert forall|d: int| 1 < d && #[trigger] (n % d) == 0 implies has_order(d, c, f) by {
        lemma_one_modulo_divisor(n, d, pow(c, f));
        lemma_not_one_modulo_divisor(n, d, pow(c, q), u);
        lemma_not_one_modulo_divisor(n, d, pow(c, r), v);
        assert forall|m: nat| 0 < m < f implies #[trigger] pow(c, m) % d != 1 by {
            if pow(c, m) % d == 1 {
                lemma_order_factor(d, c, q, r, m);
                lemma_order_factor(d, c, r, q, m);
                // Both primes divide m, and so does their product.
                let k = m / q;
                lemma_fundamental_div_mod(m as int, q as int);
                lemma_cancel(r as int, q as int, k as int);
                let l = k / r;
                lemma_fundamental_div_mod(k as int, r as int);
                assert(f <= m) by (nonlinear_arith)
                    requires
                        f == q * r,
                        m == q * k,
                        k == r * l,
                        0 < m,
                ;
            }
        }
    }
    lemma_prime_by_order(n, c, f);
}

/// As before, with residues `g` and `h` of `c^q` and `c^r`, the product of which comes from `g`.
pub proof fn lemma_prime_by_residues(
    n: int,
    c: int,
    q: nat,
    r: nat,
    g: int,
    h: int,
    u: int,
    v: int,
)
    requires
        1 < n < q * r * q * r,
        is_prime(q as int),
        is_prime(r as int),
        q % r != 0,
        pow(c, q) % n == g,
        pow(c, r) % n == h,
        pow(g, r) % n == 1,
        (u * (g - 1)) % n == 1,
        (v * (h - 1)) % n == 1,
    ensures
        is_prime(n),
{
    lemma_mul_is_associative((q * r) as int, q as int, r as int);
    lemma_pow_multiplies(c, q, r);
    lemma_pow_mod_noop(pow(c, q), r, n);
    lemma_shifted_residue(n, pow(c, q), u);
    lemma_shifted_residue(n, pow(c, r), v);
    lemma_prime_by_composite_order(n, c, q, r, u, v);
}

/// What holds of a residue less one holds of the number less one.
proof fn lemma_shifted_residue(n: int, x: int, u: int)
    requires
        1 < n,
    ensures
        (u * (x - 1)) % n == (u * (x % n - 1)) % n,
{
    lemma_sub_mod_noop(x, 1, n);
    lemma_sub_mod_noop(x % n, 1, n);
    lemma_mod_twice(x, n);
    lemma_mul_mod_noop_right(u, x - 1, n);
    lemma_mul_mod_noop_right(u, x % n - 1, n);
}

/// The sixteenth power of `x` and `w` factors `c` more, written out for numbers that are written
/// out.
pub open spec fn window_product(x: int, c: int, w: nat) -> int
    decreases w,
{
    if w == 0 {
        x * x * x * x * x * x * x * x * x * x * x * x * x * x * x * x
    } else {
        window_product(x, c, (w - 1) as nat) * c
    }
}

/// What is written out is what is meant.
proof fn lemma_window_product(x: int, c: int, w: nat)
    ensures
        window_product(x, c, w) == pow(x, 16) * pow(c, w),
    decreases w,
{
    if w == 0 {
        let a = x * x;
        let b = a * a;
        let d = b * b;
        lemma_pow0(c);
        lemma_pow1(x);
        lemma_pow_adds(x, 1, 1);
        lemma_pow_adds(x, 2, 2);
        lemma_pow_adds(x, 4, 4);
        lemma_pow_adds(x, 8, 8);
        assert(a * x * x == b) by (nonlinear_arith)
            requires
                a == x * x,
                b == a * a,
        ;
        assert(b * x * x * x * x == d && d * x * x * x * x == d * b && d * b * x * x * x * x == d * d)
            by (nonlinear_arith)
            requires
                b == x * x * x * x,
                d == b * b,
        ;
    } else {
        let v = (w - 1) as nat;
        lemma_window_product(x, c, v);
        lemma_pow_adds(c, v, 1);
        lemma_pow1(c);
        lemma_mul_is_associative(pow(x, 16), pow(c, v), c);
    }
}

/// Four more bits of an exponent, `w` in number.
pub proof fn lemma_window(n: int, c: int, e: nat, w: nat, x: int, y: int)
    requires
        1 < n,
        pow(c, e) % n == x,
        window_product(x, c, w) % n == y,
    ensures
        pow(c, 16 * e + w) % n == y,
{
    lemma_window_product(x, c, w);
    lemma_pow_mod_noop(pow(c, e), 16, n);
    lemma_pow_multiplies(c, e, 16);
    lemma_pow_adds(c, 16 * e, w);
    lemma_mul_mod_noop_left(pow(c, 16 * e), pow(c, w), n);
    lemma_mul_mod_noop_left(pow(x, 16), pow(c, w), n);
}

} // verus!
