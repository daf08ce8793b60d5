//! Powers modulo a prime.

use vstd::prelude::*;
use vstd::arithmetic::div_mod::{lemma_mod_bound, lemma_mod_equivalence,
    lemma_mul_mod_noop_left, lemma_mul_mod_noop_right, lemma_small_mod};
use vstd::arithmetic::power::{lemma0_pow, lemma1_pow, lemma_pow0, lemma_pow1, lemma_pow_adds,
    lemma_pow_mod_noop, lemma_pow_multiplies, pow};
use crate::primes::{is_prime, lemma_cancel, lemma_difference_is_not_zero, lemma_equal_residues,
    lemma_product_is_not_zero};

verus! {

/// The product of the entries of `s`.
spec fn product(s: Seq<int>) -> int
    decreases s.len(),
{
    if s.len() == 0 {
        1
    } else {
        product(s.drop_last()) * s.last()
    }
}

/// Any entry can be taken out of a product.
proof fn lemma_product_remove(s: Seq<int>, i: int)
    requires
        0 <= i < s.len(),
    ensures
        product(s) == product(s.remove(i)) * s[i],
    decreases s.len(),
{
    let last = s.last();
    if i == s.len() - 1 {
        assert(s.remove(i) =~= s.drop_last());
    } else {
        let head = s.drop_last();
        lemma_product_remove(head, i);
        assert(s.remove(i).drop_last() =~= head.remove(i));
        assert(s.remove(i).last() == last);
        let (a, b) = (product(head.remove(i)), s[i]);
        assert((a * b) * last == (a * last) * b) by (nonlinear_arith);
    }
}

/// The order of the entries makes no difference to a product.
proof fn lemma_product_of_same(s: Seq<int>, t: Seq<int>)
    requires
        s.no_duplicates(),
        t.no_duplicates(),
        s.len() == t.len(),
        forall|x: int| s.contains(x) ==> #[trigger] t.contains(x),
    ensures
        product(s) == product(t),
    decreases s.len(),
{
    if s.len() > 0 {
        let x = s.last();
        assert(s.contains(x) && t.contains(x));
        let i = choose|i: int| 0 <= i < t.len() && t[i] == x;
        let head = s.drop_last();
        let rest = t.remove(i);
        assert forall|y: int| head.contains(y) implies #[trigger] rest.contains(y) by {
            let k = choose|k: int| 0 <= k < head.len() && head[k] == y;
            assert(s[k] == y && s.contains(y) && t.contains(y));
            assert(y != x);
            let j = choose|j: int| 0 <= j < t.len() && t[j] == y;
            if j < i {
                assert(rest[j] == y);
            } else {
                assert(rest[j - 1] == y);
            }
        }
        assert forall|a: int, b: int| 0 <= a < rest.len() && 0 <= b < rest.len() && a != b implies
            rest[a] != rest[b] by {
            let c = if a < i { a } else { a + 1 };
            let d = if b < i { b } else { b + 1 };
            assert(t[c] != t[d]);
        }
        lemma_product_of_same(head, rest);
        lemma_product_remove(t, i);
    }
}

/// The numbers from one to `n`.
spec fn numbers(n: nat) -> Seq<int> {
    Seq::new(n, |i: int| i + 1)
}

/// The multiples of `a` by the numbers from one to `n`, modulo `p`.
spec fn multiples(p: int, a: int, n: nat) -> Seq<int> {
    Seq::new(n, |i: int| (a * (i + 1)) % p)
}

/// The product of the multiples has as many factors `a` more as there are numbers.
proof fn lemma_product_of_multiples(p: int, a: int, n: nat)
    requires
        1 < p,
    ensures
        product(multiples(p, a, n)) % p == (pow(a, n) * product(numbers(n))) % p,
    decreases n,
{
    if n == 0 {
        lemma_pow0(a);
    } else {
        let m = (n - 1) as nat;
        lemma_product_of_multiples(p, a, m);
        assert(multiples(p, a, n).drop_last() =~= multiples(p, a, m));
        assert(numbers(n).drop_last() =~= numbers(m));
        lemma_pow_adds(a, m, 1);
        lemma_pow1(a);
        let (x, y) = (product(multiples(p, a, m)), product(numbers(m)));
        let k = n as int;
        lemma_mul_mod_noop_right(x, a * k, p);
        lemma_mul_mod_noop_left(x, a * k, p);
        lemma_mul_mod_noop_left(pow(a, m) * y, a * k, p);
        assert((pow(a, m) * y) * (a * k) == (pow(a, m) * a) * (y * k)) by (nonlinear_arith);
    }
}

/// A product of numbers below a prime is no multiple of it.
proof fn lemma_product_of_numbers(p: int, n: nat)
    requires
        is_prime(p),
        n < p,
    ensures
        product(numbers(n)) % p != 0,
    decreases n,
{
    if n == 0 {
        lemma_small_mod(1, p as nat);
    } else {
        let m = (n - 1) as nat;
        lemma_product_of_numbers(p, m);
        assert(numbers(n).drop_last() =~= numbers(m));
        lemma_small_mod(n, p as nat);
        if product(numbers(n)) % p == 0 {
            lemma_cancel(p, product(numbers(m)), n as int);
        }
    }
}

/// A residue that is not zero, raised to the number of such residues, is one.
pub proof fn lemma_fermat(p: int, a: int)
    requires
        is_prime(p),
        0 < a < p,
    ensures
        pow(a, (p - 1) as nat) % p == 1,
{
    let n = (p - 1) as nat;
    let s = multiples(p, a, n);
    let t = numbers(n);
    // The multiples are the same residues in another order.
    assert forall|i: int| 0 <= i < n implies 0 < #[trigger] s[i] < p by {
        lemma_product_is_not_zero(p, a, i + 1);
        lemma_mod_bound(a * (i + 1), p);
    }
    assert forall|i: int, j: int| 0 <= i < n && 0 <= j < n && i != j implies s[i] != s[j] by {
        if s[i] == s[j] {
            lemma_equal_residues(p, a * (i + 1), a * (j + 1));
            assert(a * (i + 1) - a * (j + 1) == a * (i - j)) by (nonlinear_arith);
            lemma_small_mod(a as nat, p as nat);
            lemma_cancel(p, a, i - j);
            lemma_difference_is_not_zero(p, i, j);
        }
    }
    assert(s.no_duplicates());
    assert forall|x: int| s.contains(x) implies #[trigger] t.contains(x) by {
        let i = choose|i: int| 0 <= i < s.len() && s[i] == x;
        assert(t[x - 1] == x);
    }
    lemma_product_of_same(s, t);
    lemma_product_of_multiples(p, a, n);
    lemma_product_of_numbers(p, n);
    // So their product takes the factors a^(p - 1) without a change.
    let (q, f) = (pow(a, n), product(t));
    lemma_equal_residues(p, q * f, f);
    assert(q * f - f == f * (q - 1)) by (nonlinear_arith);
    lemma_cancel(p, f, q - 1);
    lemma_mod_equivalence(q, 1, p);
    lemma_small_mod(1, p as nat);
}

/// Raising to the power of `e` is undone by raising to the power of `k` if `e k` is one more than
/// a multiple of `p - 1`.
pub proof fn lemma_power_undone(p: int, x: int, e: nat, k: nat, j: nat)
    requires
        is_prime(p),
        0 <= x < p,
        e * k == (p - 1) * j + 1,
    ensures
        pow(pow(x, e) % p, k) % p == x,
{
    let n = (p - 1) as nat;
    lemma_pow_mod_noop(pow(x, e), k, p);
    lemma_pow_multiplies(x, e, k);
    lemma_small_mod(x as nat, p as nat);
    if x == 0 {
        assert(0 < e * k) by (nonlinear_arith)
            requires
                e * k == n * j + 1,
        ;
        lemma0_pow(e * k);
    } else {
        lemma_fermat(p, x);
        lemma_pow_adds(x, n * j, 1);
        lemma_pow1(x);
        lemma_pow_multiplies(x, n, j);
        lemma_pow_mod_noop(pow(x, n), j, p);
        lemma1_pow(j);
        lemma_small_mod(1, p as nat);
        lemma_mul_mod_noop_left(pow(x, n * j), x, p);
        assert(1 * x == x);
    }
}

} // verus!
