//! The permutation at the core of the hash.

use vstd::prelude::*;
use vstd::arithmetic::div_mod::{lemma_add_mod_noop, lemma_small_mod};
use crate::field::{Engine, PrimeField, residues};
use crate::params::{PoseidonEngine, PoseidonHashParams};
use crate::sbox::SBox;

verus! {

/// The mathematical content of a set of parameters.
pub struct Instance {
    /// The number of elements of the field.
    pub modulus: int,
    /// The number of elements of the state.
    pub width: nat,
    pub capacity: nat,
    pub rate: nat,
    pub full_rounds: nat,
    pub partial_rounds: nat,
    /// The constants of each round.
    pub constants: Seq<Seq<int>>,
    /// The rows of the matrix.
    pub matrix: Seq<Seq<int>>,
    /// The substitution box, on any number of elements.
    pub sbox: spec_fn(Seq<int>) -> Seq<int>,
}

/// Whether `width` is what `state_width` may give for `params`.
pub open spec fn has_width<E: PoseidonEngine>(params: E::Params, width: u32) -> bool {
    call_ensures(<E::Params as PoseidonHashParams<E>>::state_width, (&params,), width)
}

/// What `params` stand for on a state of `width` elements.
pub open spec fn instance<E: PoseidonEngine>(params: E::Params, width: nat) -> Instance {
    Instance {
        modulus: E::Fr::modulus(),
        width,
        capacity: params.spec_capacity() as nat,
        rate: params.spec_rate() as nat,
        full_rounds: params.spec_num_full_rounds() as nat,
        partial_rounds: params.spec_num_partial_rounds() as nat,
        constants: Seq::new(
            (params.spec_num_full_rounds() + params.spec_num_partial_rounds()) as nat,
            |round: int| params.spec_round_constants(round as u32),
        ),
        matrix: Seq::new(width, |row: int| params.spec_mds_matrix_row(row as u32)),
        sbox: |s: Seq<int>| params.spec_sbox().substitution(s),
    }
}

/// Whether the permutation can run with `params` on a state of `width` elements: this is the width
/// that the parameters speak of, the full rounds split evenly round the partial ones, the counts
/// fit their type, the state is not empty, and whatever the rounds ask of the parameters is there
/// and of the width of the state.
pub open spec fn permutation_ready<E: PoseidonEngine>(params: E::Params, width: nat) -> bool {
    let rounds = params.spec_num_full_rounds() + params.spec_num_partial_rounds();
    &&& 0 < width <= u32::MAX
    &&& forall|w: u32| #[trigger] has_width::<E>(params, w) ==> w == width
    &&& rounds <= u32::MAX
    &&& params.spec_num_full_rounds() % 2 == 0
    &&& forall|round: u32| round < rounds ==> #[trigger] params.has_round(round)
    &&& rounds > 0 ==> forall|row: u32|
        row < width ==> #[trigger] params.has_row(row) && params.spec_mds_matrix_row(row).len()
            == width
    &&& params.spec_num_full_rounds() > 0 ==> params.spec_sbox().accepts(width)
    &&& params.spec_num_partial_rounds() > 0 ==> params.spec_sbox().accepts(1)
}

/// The sum of the products of the first `n` entries of `a` and `b`.
pub open spec fn dot(a: Seq<int>, b: Seq<int>, n: int) -> int
    decreases n,
{
    if n <= 0 {
        0
    } else {
        dot(a, b, n - 1) + a[n - 1] * b[n - 1]
    }
}

impl Instance {
    /// The number of rounds.
    pub open spec fn rounds(self) -> nat {
        self.full_rounds + self.partial_rounds
    }

    /// Whether the round substitutes the last element alone. Half of the full rounds come before
    /// such rounds and half after.
    pub open spec fn is_partial(self, round: int) -> bool {
        self.full_rounds / 2 <= round < self.full_rounds / 2 + self.partial_rounds
    }

    /// The state with the constants of the round added, as far as there are any.
    pub open spec fn add_constants(self, round: int, s: Seq<int>) -> Seq<int> {
        Seq::new(
            s.len(),
            |i: int|
                if i < self.constants[round].len() {
                    (s[i] + self.constants[round][i]) % self.modulus
                } else {
                    s[i]
                },
        )
    }

    /// The state with the substitution box of the round applied.
    pub open spec fn substitute(self, round: int, s: Seq<int>) -> Seq<int> {
        if self.is_partial(round) {
            s.drop_last() + (self.sbox)(seq![s.last()])
        } else {
            (self.sbox)(s)
        }
    }

    /// The matrix applied to the state.
    pub open spec fn mix(self, s: Seq<int>) -> Seq<int> {
        Seq::new(
            self.width,
            |row: int| dot(s, self.matrix[row], s.len() as int) % self.modulus,
        )
    }

    /// One round.
    pub open spec fn round(self, round: int, s: Seq<int>) -> Seq<int> {
        self.mix(self.substitute(round, self.add_constants(round, s)))
    }

    /// The first `n` rounds.
    pub open spec fn first_rounds(self, n: int, s: Seq<int>) -> Seq<int>
        decreases n,
    {
        if n <= 0 {
            s
        } else {
            self.round(n - 1, self.first_rounds(n - 1, s))
        }
    }

    /// The permutation: all rounds in order.
    pub open spec fn permute(self, s: Seq<int>) -> Seq<int> {
        self.first_rounds(self.rounds() as int, s)
    }
}

/// A copy of the elements.
pub(crate) fn copy_elements<F: PrimeField>(s: &[F]) -> (r: Vec<F>)
    ensures
        r@ == s@,
{
    let mut r: Vec<F> = Vec::with_capacity(s.len());
    let mut i: usize = 0;
    while i < s.len()
        invariant
            i <= s@.len(),
            r@ == s@.take(i as int),
        decreases s.len() - i,
    {
        r.push(s[i]);
        i += 1;
    }
    assert(s@.take(i as int) =~= s@);
    r
}

/// One element, `n` times over.
pub(crate) fn repeat_element<F: PrimeField>(element: F, n: usize) -> (r: Vec<F>)
    ensures
        r@ == Seq::new(n as nat, |i: int| element),
{
    let mut r: Vec<F> = Vec::with_capacity(n);
    while r.len() < n
        invariant
            r@.len() <= n,
            forall|i: int| 0 <= i < r@.len() ==> r@[i] == element,
        decreases n - r.len(),
    {
        r.push(element);
    }
    assert(r@ =~= Seq::new(n as nat, |i: int| element));
    r
}

/// The sum of the products of the elements of `input` and `by`, pair by pair.
pub fn scalar_product<E: Engine>(input: &[E::Fr], by: &[E::Fr]) -> (r: E::Fr)
    requires
        input@.len() == by@.len(),
    ensures
        r.residue() == dot(residues(input@), residues(by@), input@.len() as int)
            % E::Fr::modulus(),
{
    let ghost p = E::Fr::modulus();
    let ghost a = residues(input@);
    let ghost b = residues(by@);
    let mut result = <E::Fr as PrimeField>::zero();
    proof {
        result.residue_in_range();
        lemma_small_mod(0, p as nat);
    }
    let mut i: usize = 0;
    while i < input.len()
        invariant
            i <= input@.len(),
            input@.len() == by@.len(),
            a == residues(input@),
            b == residues(by@),
            1 < p,
            p == E::Fr::modulus(),
            result.residue() == dot(a, b, i as int) % p,
        decreases input.len() - i,
    {
        let mut tmp = input[i];
        tmp.mul_assign(&by[i]);
        proof {
            lemma_add_mod_noop(dot(a, b, i as int), a[i as int] * b[i as int], p);
        }
        result.add_assign(&tmp);
        i += 1;
    }
    result
}

/// One round of the permutation, in place.
fn apply_round<E: PoseidonEngine>(
    params: &E::Params,
    round: u32,
    partial: bool,
    state: &mut Vec<E::Fr>,
    scratch: &mut Vec<E::Fr>,
)
    requires
        permutation_ready::<E>(*params, old(state)@.len()),
        round < params.spec_num_full_rounds() + params.spec_num_partial_rounds(),
        partial == instance::<E>(*params, old(state)@.len()).is_partial(round as int),
        partial ==> params.spec_num_partial_rounds() > 0,
        !partial ==> params.spec_num_full_rounds() > 0,
        old(scratch)@.len() == old(state)@.len(),
    ensures
        final(state)@.len() == old(state)@.len(),
        final(scratch)@.len() == old(state)@.len(),
        residues(final(state)@) == instance::<E>(*params, old(state)@.len()).round(
            round as int,
            residues(old(state)@),
        ),
{
    let ghost m = instance::<E>(*params, state@.len());
    let ghost p = m.modulus;
    let ghost before = residues(state@);
    let width = state.len();
    let constants = params.round_constants(round);
    let ghost c = residues(constants@);
    assert(c == m.constants[round as int]);

    // Add the constants.
    let mut i: usize = 0;
    while i < width && i < constants.len()
        invariant
            i <= width,
            i <= constants@.len(),
            width == state@.len(),
            width == before.len(),
            p == E::Fr::modulus(),
            c == residues(constants@),
            forall|j: int| 0 <= j < i ==> (#[trigger] state@[j]).residue() == (before[j] + c[j]) % p,
            forall|j: int| i <= j < width ==> (#[trigger] state@[j]).residue() == before[j],
        decreases width - i,
    {
        let mut s = state[i];
        s.add_assign(&constants[i]);
        state[i] = s;
        i += 1;
    }
    let ghost added = residues(state@);
    assert(added =~= m.add_constants(round as int, before));

    // Substitute.
    if partial {
        let ghost whole = state@;
        let (_, last) = state.as_mut_slice().split_at_mut(width - 1);
        assert(residues(last@) =~= seq![added.last()]);
        params.sbox().apply(last);
        proof {
            let tail = state@.skip(width - 1);
            assert(state@ =~= whole.take(width - 1) + tail);
            assert(residues(tail) == (m.sbox)(seq![added.last()]));
            assert(residues(state@) =~= added.drop_last() + residues(tail));
        }
    } else {
        params.sbox().apply(state.as_mut_slice());
    }
    let ghost substituted = residues(state@);
    assert(substituted == m.substitute(round as int, added));

    // Mix.
    let mut row: usize = 0;
    while row < width
        invariant
            row <= width,
            width == state@.len(),
            width == scratch@.len(),
            width == m.width,
            m == instance::<E>(*params, width as nat),
            permutation_ready::<E>(*params, width as nat),
            params.spec_num_full_rounds() + params.spec_num_partial_rounds() > 0,
            substituted == residues(state@),
            forall|j: int|
                0 <= j < row ==> (#[trigger] scratch@[j]).residue() == m.mix(substituted)[j],
        decreases width - row,
    {
        assert(params.has_row(row as u32));
        let matrix_row = params.mds_matrix_row(row as u32);
        assert(residues(matrix_row@) == m.matrix[row as int]);
        assert(residues(matrix_row@).len() == matrix_row@.len());
        scratch[row] = scalar_product::<E>(state.as_slice(), matrix_row);
        row += 1;
    }

    // Place the new state.
    let mut k: usize = 0;
    while k < width
        invariant
            k <= width,
            width == state@.len(),
            width == scratch@.len(),
            forall|j: int| 0 <= j < k ==> #[trigger] state@[j] == scratch@[j],
        decreases width - k,
    {
        state[k] = scratch[k];
        k += 1;
    }
    assert(residues(state@) =~= m.mix(substituted));
}

/// The permutation: the state that `old_state` leads to.
pub fn poseidon_mimc<E: PoseidonEngine>(params: &E::Params, old_state: &[E::Fr]) -> (r: Vec<E::Fr>)
    requires
        permutation_ready::<E>(*params, old_state@.len()),
    ensures
        r@.len() == old_state@.len(),
        residues(r@) == instance::<E>(*params, old_state@.len()).permute(residues(old_state@)),
{
    let ghost m = instance::<E>(*params, old_state@.len());
    let ghost start = residues(old_state@);
    let mut state = copy_elements(old_state);
    let mut scratch = repeat_element(<E::Fr as PrimeField>::zero(), state.len());
    let half_of_full_rounds = params.num_full_rounds() / 2;
    let partial_end = params.num_partial_rounds() + half_of_full_rounds;
    let end = params.num_partial_rounds() + params.num_full_rounds();

    let mut round: u32 = 0;
    while round < half_of_full_rounds
        invariant
            round <= half_of_full_rounds,
            half_of_full_rounds == m.full_rounds / 2,
            m == instance::<E>(*params, m.width),
            permutation_ready::<E>(*params, m.width),
            state@.len() == m.width,
            scratch@.len() == m.width,
            residues(state@) == m.first_rounds(round as int, start),
        decreases half_of_full_rounds - round,
    {
        apply_round::<E>(params, round, false, &mut state, &mut scratch);
        round += 1;
    }
    while round < partial_end
        invariant
            half_of_full_rounds <= round <= partial_end,
            half_of_full_rounds == m.full_rounds / 2,
            partial_end == half_of_full_rounds + m.partial_rounds,
            m == instance::<E>(*params, m.width),
            permutation_ready::<E>(*params, m.width),
            state@.len() == m.width,
            scratch@.len() == m.width,
            residues(state@) == m.first_rounds(round as int, start),
        decreases partial_end - round,
    {
        apply_round::<E>(params, round, true, &mut state, &mut scratch);
        round += 1;
    }
    while round < end
        invariant
            partial_end <= round <= end,
            half_of_full_rounds == m.full_rounds / 2,
            partial_end == half_of_full_rounds + m.partial_rounds,
            end == m.rounds(),
            m == instance::<E>(*params, m.width),
            permutation_ready::<E>(*params, m.width),
            state@.len() == m.width,
            scratch@.len() == m.width,
            residues(state@) == m.first_rounds(round as int, start),
        decreases end - round,
    {
        apply_round::<E>(params, round, false, &mut state, &mut scratch);
        round += 1;
    }
    state
}

} // verus!
