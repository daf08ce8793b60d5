//! Laws of the substitution boxes.

use vstd::prelude::*;
use vstd::arithmetic::div_mod::{lemma_mod_bound, lemma_mul_mod_noop_left, lemma_small_mod};
use vstd::arithmetic::power::{lemma_pow0, lemma_pow1, lemma_pow_adds, lemma_pow_mod_noop,
    lemma_pow_multiplies, pow};
use crate::fermat::lemma_power_undone;
use crate::field::{Engine, PrimeField, in_range, inverse_or_zero, lemma_inverse_or_zero};
use crate::primes::{is_prime, lemma_inverse_exists};
use crate::sbox::{CubicSBox, InversionSBox, PowerSBox, QuinticSBox, SBox, map_inverse,
    map_power, windows_value};

verus! {

/// The inverse of an inverse, and where it lies.
proof fn lemma_inverse_twice(p: int, x: int)
    requires
        is_prime(p),
        0 <= x < p,
    ensures
        0 <= inverse_or_zero(p, x) < p,
        inverse_or_zero(p, x) == 0 <==> x == 0,
        inverse_or_zero(p, inverse_or_zero(p, x)) == x,
{
    if x != 0 {
        let y = lemma_inverse_exists(p, x);
        lemma_inverse_or_zero(p, x, y);
        assert(x * 0 == 0);
        lemma_small_mod(0, p as nat);
        assert(x * y == y * x) by (nonlinear_arith);
        lemma_inverse_or_zero(p, y, x);
    }
}

/// Inverting residues twice gives them back, and inverses are residues.
pub proof fn lemma_map_inverse_twice(p: int, s: Seq<int>)
    requires
        is_prime(p),
        in_range(p, s),
    ensures
        in_range(p, map_inverse(p, s)),
        map_inverse(p, map_inverse(p, s)) == s,
{
    assert forall|i: int| 0 <= i < s.len() implies 0 <= #[trigger] map_inverse(p, s)[i] < p
        && map_inverse(p, map_inverse(p, s))[i] == s[i] by {
        lemma_inverse_twice(p, s[i]);
    }
    assert(map_inverse(p, map_inverse(p, s)) =~= s);
}

/// Inverting elements twice gives them back.
pub proof fn law_inversion_undoes_itself<E: Engine>(sbox: InversionSBox<E>, s: Seq<int>)
    requires
        in_range(E::Fr::modulus(), s),
    ensures
        in_range(E::Fr::modulus(), sbox.substitution(s)),
        sbox.substitution(sbox.substitution(s)) == s,
{
    <E::Fr as PrimeField>::modulus_is_prime();
    lemma_map_inverse_twice(E::Fr::modulus(), s);
}

/// Powers of residues are residues, and are undone by a power that fits.
pub proof fn lemma_map_power_undone(p: int, s: Seq<int>, e: nat, k: nat, j: nat)
    requires
        is_prime(p),
        in_range(p, s),
        e * k == (p - 1) * j + 1,
    ensures
        in_range(p, map_power(p, s, e)),
        map_power(p, map_power(p, s, e), k) == s,
{
    assert forall|i: int| 0 <= i < s.len() implies 0 <= #[trigger] map_power(p, s, e)[i] < p
        && map_power(p, map_power(p, s, e), k)[i] == s[i] by {
        lemma_mod_bound(pow(s[i], e), p);
        lemma_power_undone(p, s[i], e, k, j);
    }
    assert(map_power(p, map_power(p, s, e), k) =~= s);
}

/// Raising elements to a power is undone by raising them to another one, if the product of the
/// two is one more than a multiple of the number of elements but zero.
pub proof fn law_power_is_undone_by_another<E: Engine>(
    sbox: PowerSBox<E>,
    back: PowerSBox<E>,
    j: nat,
    s: Seq<int>,
)
    requires
        in_range(E::Fr::modulus(), s),
        sbox.exponent() * back.exponent() == (E::Fr::modulus() - 1) * j + 1,
    ensures
        in_range(E::Fr::modulus(), sbox.substitution(s)),
        back.substitution(sbox.substitution(s)) == s,
{
    <E::Fr as PrimeField>::modulus_is_prime();
    lemma_map_power_undone(E::Fr::modulus(), s, sbox.exponent(), back.exponent(), j);
}

/// The inversion box gives each element its inverse: the product of an element that is not zero and
/// what becomes of it is one, and zero stays.
pub proof fn law_inversion_gives_inverses<E: Engine>(sbox: InversionSBox<E>, s: Seq<int>, i: int)
    requires
        in_range(E::Fr::modulus(), s),
        0 <= i < s.len(),
    ensures
        sbox.substitution(s).len() == s.len(),
        0 <= sbox.substitution(s)[i] < E::Fr::modulus(),
        s[i] == 0 ==> sbox.substitution(s)[i] == 0,
        s[i] != 0 ==> (s[i] * sbox.substitution(s)[i]) % E::Fr::modulus() == 1,
{
    let p = E::Fr::modulus();
    <E::Fr as PrimeField>::modulus_is_prime();
    if s[i] != 0 {
        let y = lemma_inverse_exists(p, s[i]);
        lemma_inverse_or_zero(p, s[i], y);
    }
}

/// The cubic box multiplies three of each element, and the quintic one five.
pub proof fn law_cubes_and_fifth_powers<E: Engine>(
    cubic: CubicSBox<E>,
    quintic: QuinticSBox<E>,
    s: Seq<int>,
    i: int,
)
    requires
        0 <= i < s.len(),
    ensures
        cubic.substitution(s).len() == s.len(),
        cubic.substitution(s)[i] == (s[i] * s[i] * s[i]) % E::Fr::modulus(),
        quintic.substitution(s).len() == s.len(),
        quintic.substitution(s)[i] == (s[i] * s[i] * s[i] * s[i] * s[i]) % E::Fr::modulus(),
{
    let x = s[i];
    lemma_pow1(x);
    lemma_pow_adds(x, 1, 1);
    lemma_pow_adds(x, 2, 1);
    lemma_pow_adds(x, 3, 1);
    lemma_pow_adds(x, 4, 1);
}

/// The boxes can be applied to any number of elements; the one that raises to a power of choice
/// asks for windows of four bits.
pub proof fn law_boxes_take_any_number<E: Engine>(
    cubic: CubicSBox<E>,
    quintic: QuinticSBox<E>,
    inversion: InversionSBox<E>,
    power: PowerSBox<E>,
    n: nat,
)
    ensures
        cubic.accepts(n),
        quintic.accepts(n),
        inversion.accepts(n),
        power.accepts(0),
        (forall|i: int|
            0 <= i < power.precomputed_indexes@.len() ==> power.precomputed_indexes@[i] < 16)
            ==> power.accepts(n),
{
}

/// Without windows the box raises each element to its power.
pub proof fn law_power_without_windows<E: Engine>(sbox: PowerSBox<E>, s: Seq<int>, i: int)
    requires
        sbox.precomputed_indexes@.len() == 0,
        0 <= i < s.len(),
    ensures
        sbox.substitution(s).len() == s.len(),
        sbox.substitution(s)[i] == pow(s[i], E::Fr::repr_value(sbox.power)) % E::Fr::modulus(),
{
}

/// A single window is taken sixteen times for the first one and once for the last one.
pub proof fn law_power_with_one_window<E: Engine>(sbox: PowerSBox<E>, s: Seq<int>, i: int)
    requires
        sbox.precomputed_indexes@.len() == 1,
        0 <= i < s.len(),
    ensures
        sbox.substitution(s).len() == s.len(),
        sbox.substitution(s)[i] == pow(
            s[i],
            (16 * sbox.precomputed_indexes@[0] + sbox.precomputed_indexes@[0]) as nat,
        ) % E::Fr::modulus(),
{
}

/// Of two windows the first one counts sixteen times.
pub proof fn law_power_with_two_windows<E: Engine>(sbox: PowerSBox<E>, s: Seq<int>, i: int)
    requires
        sbox.precomputed_indexes@.len() == 2,
        0 <= i < s.len(),
    ensures
        sbox.substitution(s).len() == s.len(),
        sbox.substitution(s)[i] == pow(
            s[i],
            (16 * sbox.precomputed_indexes@[0] + sbox.precomputed_indexes@[1]) as nat,
        ) % E::Fr::modulus(),
{
    let w = sbox.precomputed_indexes@;
    reveal_with_fuel(windows_value, 3);
    assert(w.drop_last().drop_last() =~= Seq::<usize>::empty());
}

/// One window more, behind two or more of them, raises what was there to the sixteenth power and
/// multiplies it by the power that the window spells.
pub proof fn law_power_with_one_window_more<E: Engine>(
    shorter: PowerSBox<E>,
    longer: PowerSBox<E>,
    d: usize,
    s: Seq<int>,
    i: int,
)
    requires
        shorter.precomputed_indexes@.len() >= 2,
        longer.precomputed_indexes@ == shorter.precomputed_indexes@.push(d),
        0 <= i < s.len(),
    ensures
        longer.substitution(s).len() == s.len(),
        longer.substitution(s)[i] == (pow(shorter.substitution(s)[i], 16) * pow(s[i], d as nat))
            % E::Fr::modulus(),
{
    let p = E::Fr::modulus();
    let w = shorter.precomputed_indexes@;
    let x = s[i];
    let e = windows_value(w);
    <E::Fr as PrimeField>::modulus_is_prime();
    assert(longer.precomputed_indexes@.drop_last() =~= w);
    assert(longer.exponent() == 16 * e + d as nat);
    lemma_pow_mod_noop(pow(x, e), 16, p);
    lemma_pow_multiplies(x, e, 16);
    assert(e * 16 == 16 * e);
    lemma_pow_adds(x, 16 * e, d as nat);
    lemma_mul_mod_noop_left(pow(x, e * 16), pow(x, d as nat), p);
    lemma_mul_mod_noop_left(pow(pow(x, e) % p, 16), pow(x, d as nat), p);
}

/// Windows spell a number as its digits to the base of sixteen do: each counts for itself, and
/// sixteen times as much with each one behind it.
pub proof fn law_windows_are_digits(windows: Seq<usize>, d: usize)
    ensures
        windows_value(Seq::empty()) == 0,
        windows_value(windows.push(d)) == 16 * windows_value(windows) + d,
        windows_value(seq![d] + windows) == d * pow(16, windows.len()) + windows_value(windows),
        windows_value(windows) == windows.fold_left(0int, |sum: int, w: usize| 16 * sum + w),
    decreases windows.len(),
{
    assert(windows.push(d).drop_last() =~= windows);
    if windows.len() == 0 {
        lemma_pow0(16);
        assert(seq![d] + windows =~= windows.push(d));
        assert(d * 1 == d as int);
    } else {
        let head = windows.drop_last();
        law_windows_are_digits(head, d);
        assert((seq![d] + windows).drop_last() =~= seq![d] + head);
        assert((seq![d] + windows).last() == windows.last());
        lemma_pow_adds(16, head.len(), 1);
        lemma_pow1(16);
        let q = pow(16, head.len());
        assert(16 * (d * q) == d * (q * 16)) by (nonlinear_arith);
    }
}

/// The digits of `n` to the base of sixteen, the most significant one first.
pub open spec fn digits(n: nat) -> Seq<usize>
    decreases n,
{
    if n == 0 {
        Seq::empty()
    } else {
        digits(n / 16).push((n % 16) as usize)
    }
}

/// The digits of a number are windows that spell it, so a box that holds two of them or more raises
/// elements to that number.
pub proof fn law_digits_raise_to_their_number<E: Engine>(
    sbox: PowerSBox<E>,
    n: nat,
    s: Seq<int>,
    i: int,
)
    requires
        n >= 16,
        sbox.precomputed_indexes@ == digits(n),
        0 <= i < s.len(),
    ensures
        sbox.accepts(s.len()),
        sbox.substitution(s).len() == s.len(),
        sbox.substitution(s)[i] == pow(s[i], n) % E::Fr::modulus(),
{
    lemma_digits(n);
    lemma_digits(n / 16);
    assert(digits(n).len() >= 2);
}

/// Digits are below sixteen, and spell their number.
pub proof fn lemma_digits(n: nat)
    ensures
        windows_value(digits(n)) == n,
        forall|i: int| 0 <= i < digits(n).len() ==> #[trigger] digits(n)[i] < 16,
        n > 0 ==> digits(n).len() > 0,
    decreases n,
{
    if n > 0 {
        lemma_digits(n / 16);
        law_windows_are_digits(digits(n / 16), (n % 16) as usize);
    }
}

/// Windows, two of them or more, that spell a power raise elements to that power: the box that
/// holds them does what the box that holds the power alone does.
pub proof fn law_windows_raise_to_the_power_they_spell<E: Engine>(
    windowed: PowerSBox<E>,
    plain: PowerSBox<E>,
    s: Seq<int>,
)
    requires
        windowed.precomputed_indexes@.len() >= 2,
        plain.precomputed_indexes@.len() == 0,
        windows_value(windowed.precomputed_indexes@) == E::Fr::repr_value(plain.power),
    ensures
        windowed.substitution(s) == plain.substitution(s),
{
}

/// With three for its power the box of choice is the cubic one, and with five the quintic one.
pub proof fn law_power_covers_cubic_and_quintic<E: Engine>(
    power: PowerSBox<E>,
    cubic: CubicSBox<E>,
    quintic: QuinticSBox<E>,
    s: Seq<int>,
)
    ensures
        power.exponent() == 3 ==> power.substitution(s) == cubic.substitution(s),
        power.exponent() == 5 ==> power.substitution(s) == quintic.substitution(s),
{
}

} // verus!
