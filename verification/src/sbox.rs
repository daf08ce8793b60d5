//! The substitution boxes.

use std::marker::PhantomData;
use vstd::prelude::*;
use vstd::arithmetic::div_mod::lemma_small_mod;
use vstd::arithmetic::power::{lemma_pow0, lemma_pow1, pow};
use crate::field::{Engine, PrimeField, inverse_or_zero, lemma_pow_mod_mul, residues};

verus! {

/// A substitution that the permutation applies to elements of its state.
pub trait SBox<E: Engine>: Sized + Clone {
    /// Whether the box can be applied to `n` elements at a time.
    spec fn accepts(&self, n: nat) -> bool;

    /// What becomes of elements with residues `s`.
    spec fn substitution(&self, s: Seq<int>) -> Seq<int>;

    /// Substitutes each of `elements` in place.
    fn apply(&self, elements: &mut [E::Fr])
        requires
            self.accepts(old(elements)@.len()),
        ensures
            final(elements)@.len() == old(elements)@.len(),
            residues(final(elements)@) == self.substitution(residues(old(elements)@)),
    ;
}

/// Raises each element to the third power.
#[verifier::reject_recursive_types(E)]
pub struct CubicSBox<E: Engine> {
    pub _marker: PhantomData<E>,
}

/// Raises each element to the fifth power.
#[verifier::reject_recursive_types(E)]
pub struct QuinticSBox<E: Engine> {
    pub _marker: PhantomData<E>,
}

/// Raises each element to a power of choice: to `power`, or, where `precomputed_indexes` is not
/// empty, to the power that those windows of four bits spell, the most significant one first. A
/// single window counts 17 times, as the first one and as the last one.
#[verifier::reject_recursive_types(E)]
pub struct PowerSBox<E: Engine> {
    pub power: <E::Fr as PrimeField>::Repr,
    pub precomputed_indexes: Vec<usize>,
    pub inv: u64,
}

/// Inverts each element, and leaves zero as it is.
#[verifier::reject_recursive_types(E)]
pub struct InversionSBox<E: Engine> {
    pub _marker: PhantomData<E>,
}

impl<E: Engine> Clone for CubicSBox<E> {
    fn clone(&self) -> (r: Self)
        ensures
            r == *self,
    {
        CubicSBox { _marker: PhantomData }
    }
}

impl<E: Engine> Clone for QuinticSBox<E> {
    fn clone(&self) -> (r: Self)
        ensures
            r == *self,
    {
        QuinticSBox { _marker: PhantomData }
    }
}

impl<E: Engine> Clone for PowerSBox<E> {
    fn clone(&self) -> (r: Self)
        ensures
            r.power == self.power,
            r.precomputed_indexes@ == self.precomputed_indexes@,
            r.inv == self.inv,
    {
        PowerSBox {
            power: self.power,
            precomputed_indexes: self.precomputed_indexes.clone(),
            inv: self.inv,
        }
    }
}

impl<E: Engine> Clone for InversionSBox<E> {
    fn clone(&self) -> (r: Self)
        ensures
            r == *self,
    {
        InversionSBox { _marker: PhantomData }
    }
}

/// Each of `s` raised to the power of `e`, modulo `p`.
pub open spec fn map_power(p: int, s: Seq<int>, e: nat) -> Seq<int> {
    Seq::new(s.len(), |i: int| pow(s[i], e) % p)
}

/// Each of `s` inverted modulo `p`, zeros kept.
pub open spec fn map_inverse(p: int, s: Seq<int>) -> Seq<int> {
    Seq::new(s.len(), |i: int| inverse_or_zero(p, s[i]))
}

impl<E: Engine> SBox<E> for CubicSBox<E> {
    open spec fn accepts(&self, n: nat) -> bool {
        true
    }

    open spec fn substitution(&self, s: Seq<int>) -> Seq<int> {
        map_power(E::Fr::modulus(), s, 3)
    }

    fn apply(&self, elements: &mut [E::Fr]) {
        let n = elements.len();
        let ghost p = E::Fr::modulus();
        let ghost before = residues(elements@);
        let mut i: usize = 0;
        while i < n
            invariant
                i <= n,
                n == elements@.len(),
                n == before.len(),
                p == E::Fr::modulus(),
                forall|j: int|
                    0 <= j < i ==> (#[trigger] elements@[j]).residue() == pow(before[j], 3) % p,
                forall|j: int| i <= j < n ==> (#[trigger] elements@[j]).residue() == before[j],
            decreases n - i,
        {
            let mut element = elements[i];
            let mut squared = element;
            squared.square();
            proof {
                let x = before[i as int];
                element.residue_in_range();
                lemma_residue_as_power(p, x);
                lemma_pow_mod_mul(p, x, 1, 1);
                lemma_pow_mod_mul(p, x, 1, 2);
            }
            element.mul_assign(&squared);
            elements[i] = element;
            i += 1;
        }
        assert(residues(elements@) =~= map_power(p, before, 3));
    }
}

impl<E: Engine> SBox<E> for QuinticSBox<E> {
    open spec fn accepts(&self, n: nat) -> bool {
        true
    }

    open spec fn substitution(&self, s: Seq<int>) -> Seq<int> {
        map_power(E::Fr::modulus(), s, 5)
    }

    fn apply(&self, elements: &mut [E::Fr]) {
        let n = elements.len();
        let ghost p = E::Fr::modulus();
        let ghost before = residues(elements@);
        let mut i: usize = 0;
        while i < n
            invariant
                i <= n,
                n == elements@.len(),
                n == before.len(),
                p == E::Fr::modulus(),
                forall|j: int|
                    0 <= j < i ==> (#[trigger] elements@[j]).residue() == pow(before[j], 5) % p,
                forall|j: int| i <= j < n ==> (#[trigger] elements@[j]).residue() == before[j],
            decreases n - i,
        {
            let mut element = elements[i];
            let mut quad = element;
            quad.square();
            quad.square();
            proof {
                let x = before[i as int];
                element.residue_in_range();
                lemma_residue_as_power(p, x);
                lemma_pow_mod_mul(p, x, 1, 1);
                lemma_pow_mod_mul(p, x, 2, 2);
                lemma_pow_mod_mul(p, x, 1, 4);
            }
            element.mul_assign(&quad);
            elements[i] = element;
            i += 1;
        }
        assert(residues(elements@) =~= map_power(p, before, 5));
    }
}

/// The number of bits in a window of `PowerSBox`.
pub const POWER_SBOX_WINDOW_SIZE: usize = 4;

/// The number of values that a window of `PowerSBox` takes.
pub const POWER_SBOX_TABLE_SIZE: usize = 16;

/// The number that windows spell, the most significant one first.
pub open spec fn windows_value(windows: Seq<usize>) -> nat
    decreases windows.len(),
{
    if windows.len() == 0 {
        0
    } else {
        16 * windows_value(windows.drop_last()) + windows.last() as nat
    }
}

/// The exponent that the windowed path of `PowerSBox` raises to. The first window is always
/// followed by four squarings and the last one by none, so a window that is both counts twice.
pub open spec fn windows_exponent(windows: Seq<usize>) -> nat {
    if windows.len() == 1 {
        17 * windows[0] as nat
    } else {
        windows_value(windows)
    }
}

impl<E: Engine> PowerSBox<E> {
    /// The exponent that this box raises to.
    pub open spec fn exponent(&self) -> nat {
        if self.precomputed_indexes@.len() != 0 {
            windows_exponent(self.precomputed_indexes@)
        } else {
            E::Fr::repr_value(self.power)
        }
    }

    /// Whether each window is one of four bits.
    pub open spec fn windows_in_range(&self) -> bool {
        forall|i: int|
            0 <= i < self.precomputed_indexes@.len() ==> (#[trigger] self.precomputed_indexes@[i])
                < POWER_SBOX_TABLE_SIZE
    }
}

/// A residue is its own first power.
proof fn lemma_residue_as_power(p: int, x: int)
    requires
        0 <= x < p,
    ensures
        pow(x, 1) % p == x,
{
    lemma_pow1(x);
    lemma_small_mod(x as nat, p as nat);
}

/// The powers of `element` from the zeroth on, as many as a window takes values.
fn power_table<F: PrimeField>(element: F) -> (table: Vec<F>)
    ensures
        table@.len() == POWER_SBOX_TABLE_SIZE,
        forall|k: int|
            0 <= k < table@.len() ==> (#[trigger] table@[k]).residue() == pow(
                element.residue(),
                k as nat,
            ) % F::modulus(),
{
    let ghost p = F::modulus();
    let ghost x = element.residue();
    let mut table: Vec<F> = Vec::with_capacity(POWER_SBOX_TABLE_SIZE);
    let mut current = F::one();
    proof {
        element.residue_in_range();
        lemma_pow0(x);
        lemma_small_mod(1, p as nat);
        lemma_residue_as_power(p, x);
    }
    while table.len() < POWER_SBOX_TABLE_SIZE
        invariant
            table@.len() <= POWER_SBOX_TABLE_SIZE,
            1 < p,
            p == F::modulus(),
            x == element.residue(),
            pow(x, 1) % p == x,
            current.residue() == pow(x, table@.len()) % p,
            forall|k: int|
                0 <= k < table@.len() ==> (#[trigger] table@[k]).residue() == pow(x, k as nat) % p,
        decreases POWER_SBOX_TABLE_SIZE - table.len(),
    {
        table.push(current);
        proof {
            lemma_pow_mod_mul(p, x, (table@.len() - 1) as nat, 1);
        }
        current.mul_assign(&element);
    }
    table
}

/// Squares as many times as a window has bits.
fn square_window<F: PrimeField>(element: &mut F, Ghost(x): Ghost<int>, Ghost(e): Ghost<nat>)
    requires
        old(element).residue() == pow(x, e) % F::modulus(),
    ensures
        final(element).residue() == pow(x, 16 * e) % F::modulus(),
{
    proof {
        element.residue_in_range();
        lemma_pow_mod_mul(F::modulus(), x, e, e);
        lemma_pow_mod_mul(F::modulus(), x, 2 * e, 2 * e);
        lemma_pow_mod_mul(F::modulus(), x, 4 * e, 4 * e);
        lemma_pow_mod_mul(F::modulus(), x, 8 * e, 8 * e);
    }
    element.square();
    element.square();
    element.square();
    element.square();
}

/// Raises `element` to the power that `windows` lead to.
fn windowed_power<F: PrimeField>(element: F, windows: &Vec<usize>) -> (r: F)
    requires
        windows@.len() > 0,
        forall|i: int| 0 <= i < windows@.len() ==> (#[trigger] windows@[i]) < POWER_SBOX_TABLE_SIZE,
    ensures
        r.residue() == pow(element.residue(), windows_exponent(windows@)) % F::modulus(),
{
    let ghost p = F::modulus();
    let ghost x = element.residue();
    let table = power_table(element);
    let bound = windows.len() - 1;
    let mut result = table[windows[0]];
    square_window(&mut result, Ghost(x), Ghost(windows@[0] as nat));
    let mut i: usize = 1;
    proof {
        element.residue_in_range();
        assert(windows@.take(1).drop_last() =~= Seq::empty());
        reveal_with_fuel(windows_value, 2);
    }
    while i < bound
        invariant
            1 <= i,
            i <= bound || i == 1,
            bound == windows@.len() - 1,
            1 < p,
            p == F::modulus(),
            x == element.residue(),
            table@.len() == POWER_SBOX_TABLE_SIZE,
            forall|k: int|
                0 <= k < table@.len() ==> (#[trigger] table@[k]).residue() == pow(x, k as nat) % p,
            forall|k: int|
                0 <= k < windows@.len() ==> (#[trigger] windows@[k]) < POWER_SBOX_TABLE_SIZE,
            result.residue() == pow(x, 16 * windows_value(windows@.take(i as int))) % p,
        decreases bound - i,
    {
        let ghost so_far = windows@.take(i as int);
        let ghost with_next = windows@.take(i + 1);
        proof {
            assert(with_next.drop_last() =~= so_far);
            lemma_pow_mod_mul(p, x, 16 * windows_value(so_far), windows@[i as int] as nat);
        }
        result.mul_assign(&table[windows[i]]);
        square_window(&mut result, Ghost(x), Ghost(windows_value(with_next)));
        i += 1;
    }
    proof {
        let head = windows@.take(i as int);
        lemma_pow_mod_mul(p, x, 16 * windows_value(head), windows@[bound as int] as nat);
        if bound == 0 {
            assert(windows_value(head) == windows@[0]);
        } else {
            assert(windows@.drop_last() =~= head);
        }
    }
    result.mul_assign(&table[windows[bound]]);
    result
}

impl<E: Engine> SBox<E> for PowerSBox<E> {
    open spec fn accepts(&self, n: nat) -> bool {
        n > 0 ==> self.windows_in_range()
    }

    open spec fn substitution(&self, s: Seq<int>) -> Seq<int> {
        map_power(E::Fr::modulus(), s, self.exponent())
    }

    fn apply(&self, elements: &mut [E::Fr]) {
        let n = elements.len();
        let ghost p = E::Fr::modulus();
        let ghost before = residues(elements@);
        let mut i: usize = 0;
        while i < n
            invariant
                i <= n,
                n == elements@.len(),
                n == before.len(),
                n > 0 ==> self.windows_in_range(),
                p == E::Fr::modulus(),
                forall|j: int|
                    0 <= j < i ==> (#[trigger] elements@[j]).residue() == pow(
                        before[j],
                        self.exponent(),
                    ) % p,
                forall|j: int| i <= j < n ==> (#[trigger] elements@[j]).residue() == before[j],
            decreases n - i,
        {
            let element = elements[i];
            if self.precomputed_indexes.len() != 0 {
                elements[i] = windowed_power(element, &self.precomputed_indexes);
            } else {
                elements[i] = element.pow(&self.power);
            }
            i += 1;
        }
        assert(residues(elements@) =~= map_power(p, before, self.exponent()));
    }
}

} // verus!
