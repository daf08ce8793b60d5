//! The sponge: input is absorbed, output is squeezed out.

use vstd::prelude::*;
use vstd::arithmetic::div_mod::{lemma_div_pos_is_pos, lemma_fundamental_div_mod, lemma_mod_bound,
    lemma_mod_self_0, lemma_small_mod};
use crate::field::{PrimeField, residues};
use crate::params::{PoseidonEngine, PoseidonHashParams};
use crate::permutation::{Instance, copy_elements, has_width, instance, permutation_ready,
    poseidon_mimc, repeat_element};

verus! {

/// What a sponge is about, in residues.
pub enum Phase {
    /// Input that has not entered the state yet.
    Absorbing(Seq<int>),
    /// Output that has not been handed out yet.
    Squeezing(Seq<int>),
}

/// A sponge, in residues.
pub struct SpongeModel {
    pub state: Seq<int>,
    pub phase: Phase,
}

/// `n` ones.
pub open spec fn ones(n: int) -> Seq<int> {
    Seq::new(n as nat, |i: int| 1int)
}

/// How many ones bring input of length `len` to a whole number of blocks.
pub open spec fn padding_len(rate: nat, len: nat) -> nat {
    if len % rate == 0 {
        0
    } else {
        (rate - len % rate) as nat
    }
}

/// Input with ones appended up to a whole number of blocks.
pub open spec fn padded(rate: nat, input: Seq<int>) -> Seq<int> {
    input + ones(padding_len(rate, input.len()) as int)
}

impl Instance {
    /// A sponge that has seen no input.
    pub open spec fn fresh_sponge(self) -> SpongeModel {
        SpongeModel {
            state: Seq::new(self.width, |i: int| 0int),
            phase: Phase::Absorbing(Seq::empty()),
        }
    }

    /// The state with a block added to its first elements.
    pub open spec fn add_block(self, state: Seq<int>, block: Seq<int>) -> Seq<int> {
        Seq::new(
            state.len(),
            |i: int|
                if i < self.rate {
                    (state[i] + block[i]) % self.modulus
                } else {
                    state[i]
                },
        )
    }

    /// How many values wait to enter the state.
    pub open spec fn waiting(self, sponge: SpongeModel) -> nat {
        match sponge.phase {
            Phase::Absorbing(block) => block.len(),
            Phase::Squeezing(_) => 0,
        }
    }

    /// What absorbing one value does: a full block first enters the state, and the value waits
    /// for its own block to fill. Output that is left over is dropped.
    pub open spec fn absorb_one(self, sponge: SpongeModel, value: int) -> SpongeModel {
        match sponge.phase {
            Phase::Absorbing(block) => if block.len() < self.rate {
                SpongeModel {
                    state: sponge.state,
                    phase: Phase::Absorbing(block.push(value)),
                }
            } else {
                SpongeModel {
                    state: self.permute(self.add_block(sponge.state, block)),
                    phase: Phase::Absorbing(seq![value]),
                }
            },
            Phase::Squeezing(_) => SpongeModel {
                state: sponge.state,
                phase: Phase::Absorbing(seq![value]),
            },
        }
    }

    /// What absorbing values one by one does.
    pub open spec fn absorb_each(self, sponge: SpongeModel, values: Seq<int>) -> SpongeModel
        decreases values.len(),
    {
        if values.len() == 0 {
            sponge
        } else {
            self.absorb_one(self.absorb_each(sponge, values.drop_last()), values.last())
        }
    }

    /// What absorbing an input does: padding fills its last block.
    pub open spec fn absorb_all(self, sponge: SpongeModel, input: Seq<int>) -> SpongeModel {
        self.absorb_each(sponge, padded(self.rate, input))
    }

    /// The sponge that hands out the first elements of `state`, but for the very first, which it
    /// has just handed out.
    pub open spec fn squeezed(self, state: Seq<int>) -> SpongeModel {
        SpongeModel { state, phase: Phase::Squeezing(state.subrange(1, self.rate as int)) }
    }

    /// The state from which the next output comes, where none is left over.
    pub open spec fn next_output_state(self, sponge: SpongeModel) -> Seq<int> {
        match sponge.phase {
            Phase::Absorbing(block) => self.permute(
                self.add_block(sponge.state, block + ones(self.rate - block.len())),
            ),
            Phase::Squeezing(_) => self.permute(sponge.state),
        }
    }

    /// Whether there is output left over to hand out.
    pub open spec fn has_output(self, sponge: SpongeModel) -> bool {
        sponge.phase matches Phase::Squeezing(left) && left.len() > 0
    }

    /// What squeezing out one value does to the sponge.
    pub open spec fn after_squeeze(self, sponge: SpongeModel) -> SpongeModel {
        if self.has_output(sponge) {
            SpongeModel {
                state: sponge.state,
                phase: Phase::Squeezing(sponge.phase->Squeezing_0.drop_first()),
            }
        } else {
            self.squeezed(self.next_output_state(sponge))
        }
    }

    /// The value that is squeezed out.
    pub open spec fn squeeze_output(self, sponge: SpongeModel) -> int {
        if self.has_output(sponge) {
            sponge.phase->Squeezing_0[0]
        } else {
            self.next_output_state(sponge)[0]
        }
    }

    /// The sponge after `n` values have been squeezed out.
    pub open spec fn after_squeezes(self, sponge: SpongeModel, n: nat) -> SpongeModel
        decreases n,
    {
        if n == 0 {
            sponge
        } else {
            self.after_squeeze(self.after_squeezes(sponge, (n - 1) as nat))
        }
    }

    /// The next `n` values that are squeezed out.
    pub open spec fn squeeze_outputs(self, sponge: SpongeModel, n: nat) -> Seq<int> {
        Seq::new(n, |i: int| self.squeeze_output(self.after_squeezes(sponge, i as nat)))
    }

    /// The hash of an input.
    pub open spec fn hash(self, input: Seq<int>) -> Seq<int> {
        self.squeeze_outputs(self.absorb_all(self.fresh_sponge(), input), self.capacity)
    }
}

enum OpMode<E: PoseidonEngine> {
    AccumulatingToAbsorb(Vec<E::Fr>),
    SqueezedInto(Vec<E::Fr>),
}

/// A sponge that takes input and gives output piece by piece.
#[verifier::reject_recursive_types(E)]
pub struct StatefulSponge<'a, E: PoseidonEngine> {
    params: &'a E::Params,
    internal_state: Vec<E::Fr>,
    mode: OpMode<E>,
}

impl<'a, E: PoseidonEngine> View for StatefulSponge<'a, E> {
    type V = SpongeModel;

    closed spec fn view(&self) -> SpongeModel {
        SpongeModel {
            state: residues(self.internal_state@),
            phase: match self.mode {
                OpMode::AccumulatingToAbsorb(v) => Phase::Absorbing(residues(v@)),
                OpMode::SqueezedInto(v) => Phase::Squeezing(residues(v@)),
            },
        }
    }
}

impl<'a, E: PoseidonEngine> Clone for StatefulSponge<'a, E> {
    fn clone(&self) -> (r: Self)
        ensures
            r@ == self@,
            r.params() == self.params(),
    {
        StatefulSponge {
            params: self.params,
            internal_state: copy_elements(self.internal_state.as_slice()),
            mode: match &self.mode {
                OpMode::AccumulatingToAbsorb(v) => OpMode::AccumulatingToAbsorb(
                    copy_elements(v.as_slice()),
                ),
                OpMode::SqueezedInto(v) => OpMode::SqueezedInto(copy_elements(v.as_slice())),
            },
        }
    }
}

impl<'a, E: PoseidonEngine> StatefulSponge<'a, E> {
    /// The parameters that the sponge runs with.
    pub closed spec fn params(&self) -> E::Params {
        *self.params
    }

    /// What the parameters stand for on the state of the sponge.
    pub open spec fn instance(&self) -> Instance {
        instance::<E>(self.params(), self@.state.len())
    }

    /// Whether the sponge can permute its state.
    pub open spec fn can_permute(&self) -> bool {
        sponge_ready::<E>(self.params(), self@.state.len())
    }

    /// What holds of a sponge between calls: no more than a block waits. A block of nothing still
    /// lets one value wait.
    pub open spec fn well_formed(&self) -> bool {
        let rate = self.params().spec_rate();
        match self@.phase {
            Phase::Absorbing(block) => block.len() <= rate || (rate == 0 && block.len() == 1),
            Phase::Squeezing(left) => rate > 0 && left.len() < rate,
        }
    }

    /// A sponge that has seen no input.
    pub fn new(params: &'a E::Params) -> (r: Self)
        requires
            params.spec_capacity() + params.spec_rate() <= u32::MAX,
        ensures
            r.well_formed(),
            r.params() == *params,
            exists|width: u32| #[trigger]
                has_width::<E>(*params, width) && r@ == instance::<E>(
                    *params,
                    width as nat,
                ).fresh_sponge(),
    {
        let op = OpMode::AccumulatingToAbsorb(Vec::with_capacity(params.rate() as usize));
        let width = params.state_width();
        let r = StatefulSponge {
            params,
            internal_state: repeat_element(<E::Fr as PrimeField>::zero(), width as usize),
            mode: op,
        };
        proof {
            let fresh = instance::<E>(*params, width as nat).fresh_sponge();
            assert(has_width::<E>(*params, width));
            assert(r@.state =~= fresh.state);
            assert(r@.phase->Absorbing_0 =~= Seq::<int>::empty());
        }
        r
    }

    /// Adds a block to the state and permutes it.
    fn absorb_block(&mut self, block: &Vec<E::Fr>)
        requires
            old(self).can_permute(),
            block@.len() >= old(self).instance().rate,
        ensures
            final(self).params() == old(self).params(),
            final(self)@.phase == old(self)@.phase,
            final(self)@.state.len() == old(self)@.state.len(),
            final(self)@.state == old(self).instance().permute(
                old(self).instance().add_block(old(self)@.state, residues(block@)),
            ),
    {
        let rate = self.params.rate() as usize;
        let ghost m = self.instance();
        let ghost before = self@.state;
        let ghost b = residues(block@);
        let mut i: usize = 0;
        while i < rate
            invariant
                i <= rate,
                rate == m.rate,
                rate <= before.len(),
                rate <= block@.len(),
                b == residues(block@),
                m.modulus == E::Fr::modulus(),
                self.params() == old(self).params(),
                self@.phase == old(self)@.phase,
                before == old(self)@.state,
                self.internal_state@.len() == before.len(),
                forall|j: int|
                    0 <= j < i ==> (#[trigger] self.internal_state@[j]).residue() == (before[j]
                        + b[j]) % m.modulus,
                forall|j: int|
                    i <= j < before.len() ==> (#[trigger] self.internal_state@[j]).residue()
                        == before[j],
            decreases rate - i,
        {
            let mut element = self.internal_state[i];
            element.add_assign(&block[i]);
            self.internal_state[i] = element;
            i += 1;
        }
        assert(self@.state =~= m.add_block(before, b));
        self.internal_state = poseidon_mimc::<E>(self.params, self.internal_state.as_slice());
    }

    /// Absorbs one value.
    pub fn absorb_single_value(&mut self, value: E::Fr)
        requires
            old(self).well_formed(),
            old(self)@.phase matches Phase::Absorbing(block) && block.len()
                >= old(self).instance().rate ==> old(self).can_permute(),
        ensures
            final(self).well_formed(),
            final(self).params() == old(self).params(),
            final(self)@.state.len() == old(self)@.state.len(),
            final(self)@ == old(self).instance().absorb_one(old(self)@, value.residue()),
    {
        let rate = self.params.rate() as usize;
        let ghost m = self.instance();
        let mut block: Vec<E::Fr> = Vec::new();
        match &mut self.mode {
            OpMode::AccumulatingToAbsorb(into) => {
                std::mem::swap(into, &mut block);
                if block.len() >= rate {
                    self.absorb_block(&block);
                    block.clear();
                }
            },
            // Output that is left over is not needed any more.
            OpMode::SqueezedInto(_) => {},
        }
        let ghost waiting = residues(block@);
        block.push(value);
        assert(residues(block@) =~= waiting.push(value.residue()));
        self.mode = OpMode::AccumulatingToAbsorb(block);
        proof {
            let expected = m.absorb_one(old(self)@, value.residue());
            assert(self@.phase->Absorbing_0 =~= expected.phase->Absorbing_0);
            assert(self@.state == expected.state);
        }
    }

    /// Absorbs an input, with ones appended up to a whole number of blocks.
    pub fn absorb(&mut self, input: &[E::Fr])
        requires
            old(self).well_formed(),
            old(self).instance().rate > 0,
            input@.len() + padding_len(old(self).instance().rate, input@.len()) <= usize::MAX,
            old(self).instance().waiting(old(self)@) + padded(
                old(self).instance().rate,
                residues(input@),
            ).len() > old(self).instance().rate ==> old(self).can_permute(),
        ensures
            final(self).well_formed(),
            final(self).params() == old(self).params(),
            final(self)@.state.len() == old(self)@.state.len(),
            final(self)@ == old(self).instance().absorb_all(old(self)@, residues(input@)),
    {
        let ghost m = self.instance();
        let ghost values = residues(input@);
        let rate = self.params.rate() as usize;
        let len = input.len();
        let mut absorbtion_cycles: usize = len / rate;
        proof {
            lemma_cycles(rate as int, len as int);
        }
        if len % rate != 0 {
            absorbtion_cycles += 1;
        }
        let padding_len = absorbtion_cycles * rate - len;
        let ghost all = padded(m.rate, values);
        let ghost ready = self.can_permute();
        let ghost waiting = m.waiting(self@);
        assert(all.len() == len + padding_len);

        let mut i: usize = 0;
        assert(all.take(0) =~= Seq::<int>::empty());
        while i < len
            invariant
                i <= len,
                len == input@.len(),
                len <= all.len(),
                self.well_formed(),
                self.params() == old(self).params(),
                m == old(self).instance(),
                ready == old(self).can_permute(),
                self@.state.len() == old(self)@.state.len(),
                waiting + all.len() > m.rate ==> ready,
                ready || m.waiting(self@) == waiting + i,
                values == residues(input@),
                all == padded(m.rate, values),
                self@ == m.absorb_each(old(self)@, all.take(i as int)),
            decreases len - i,
        {
            let next = input[i];
            proof {
                assert(all.take(i + 1).drop_last() =~= all.take(i as int));
                assert(all.take(i + 1).last() == next.residue());
            }
            self.absorb_single_value(next);
            i += 1;
        }
        let one = <E::Fr as PrimeField>::one();
        let mut k: usize = 0;
        while k < padding_len
            invariant
                k <= padding_len,
                len == values.len(),
                all.len() == len + padding_len,
                self.well_formed(),
                self.params() == old(self).params(),
                m == old(self).instance(),
                ready == old(self).can_permute(),
                self@.state.len() == old(self)@.state.len(),
                waiting + all.len() > m.rate ==> ready,
                ready || m.waiting(self@) == waiting + len + k,
                all == padded(m.rate, values),
                one.residue() == 1,
                self@ == m.absorb_each(old(self)@, all.take(len + k)),
            decreases padding_len - k,
        {
            proof {
                assert(all.take(len + k + 1).drop_last() =~= all.take(len + k));
                assert(all.take(len + k + 1).last() == 1);
            }
            self.absorb_single_value(one);
            k += 1;
        }
        assert(all.take(len + k) =~= all);
    }

    /// Squeezes out one value.
    pub fn squeeze_out_single(&mut self) -> (r: E::Fr)
        requires
            old(self).well_formed(),
            old(self).instance().rate > 0,
            !old(self).instance().has_output(old(self)@) ==> old(self).can_permute(),
        ensures
            final(self).well_formed(),
            final(self).params() == old(self).params(),
            final(self)@.state.len() == old(self)@.state.len(),
            final(self)@ == old(self).instance().after_squeeze(old(self)@),
            r.residue() == old(self).instance().squeeze_output(old(self)@),
    {
        let ghost m = self.instance();
        let rate = self.params.rate() as usize;
        let mut buffer: Vec<E::Fr> = Vec::new();
        let absorbing = match &mut self.mode {
            OpMode::AccumulatingToAbsorb(into) => {
                std::mem::swap(into, &mut buffer);
                true
            },
            OpMode::SqueezedInto(into) => {
                std::mem::swap(into, &mut buffer);
                false
            },
        };
        let ghost buffered = residues(buffer@);
        if absorbing {
            let one = <E::Fr as PrimeField>::one();
            while buffer.len() < rate
                invariant
                    buffered.len() <= buffer@.len() <= rate,
                    one.residue() == 1,
                    residues(buffer@) == buffered + ones(buffer@.len() - buffered.len()),
                decreases rate - buffer.len(),
            {
                let ghost shorter = residues(buffer@);
                buffer.push(one);
                assert(residues(buffer@) =~= shorter.push(1));
                assert(residues(buffer@) =~= buffered + ones(buffer@.len() - buffered.len()));
            }
            self.absorb_block(&buffer);
            buffer = self.output_block();
        } else if buffer.len() == 0 {
            self.internal_state = poseidon_mimc::<E>(self.params, self.internal_state.as_slice());
            buffer = self.output_block();
        }
        let ghost block = buffer@;
        let output = buffer.remove(0);
        assert(output.residue() == residues(block)[0]);
        assert(residues(buffer@) =~= residues(block).drop_first());
        self.mode = OpMode::SqueezedInto(buffer);
        proof {
            let expected = m.after_squeeze(old(self)@);
            assert(self@.state == expected.state);
            assert(self@.phase->Squeezing_0 =~= expected.phase->Squeezing_0);
        }
        output
    }

    /// The elements of the state that may be handed out.
    fn output_block(&self) -> (r: Vec<E::Fr>)
        requires
            self.instance().rate <= self@.state.len(),
        ensures
            r@.len() == self.instance().rate,
            residues(r@) == self@.state.take(self.instance().rate as int),
    {
        let rate = self.params.rate() as usize;
        let (head, _) = self.internal_state.as_slice().split_at(rate);
        let r = copy_elements(head);
        assert(residues(r@) =~= self@.state.take(rate as int));
        r
    }
}

/// Whether a sponge of `width` elements can run with `params`: the permutation can, and the state
/// has room for a block.
pub open spec fn sponge_ready<E: PoseidonEngine>(params: E::Params, width: nat) -> bool {
    permutation_ready::<E>(params, width) && params.spec_rate() <= width
}

/// Whole blocks and the rest of an input of length `len`.
proof fn lemma_cycles(rate: int, len: int)
    requires
        rate > 0,
        len >= 0,
    ensures
        0 <= len / rate <= len,
        len % rate != 0 ==> len / rate < len,
        (len / rate) * rate == len - len % rate,
        (len / rate + 1) * rate == len - len % rate + rate,
        0 <= len % rate < rate,
{
    let q = len / rate;
    lemma_fundamental_div_mod(len, rate);
    lemma_mod_bound(len, rate);
    lemma_div_pos_is_pos(len, rate);
    assert(q * rate == rate * q && (q + 1) * rate == rate * q + rate) by (nonlinear_arith);
    assert(q <= rate * q) by (nonlinear_arith)
        requires
            rate > 0,
            q >= 0,
    ;
}

/// The hash of `input`: the first outputs of a fresh sponge that has absorbed it.
fn sponge<E: PoseidonEngine>(params: &E::Params, input: &[E::Fr]) -> (r: Vec<E::Fr>)
    requires
        params.spec_capacity() + params.spec_rate() <= u32::MAX,
        params.spec_rate() > 0,
        input@.len() + padding_len(params.spec_rate() as nat, input@.len()) <= usize::MAX,
        params.spec_capacity() > 0 || input@.len() > params.spec_rate() ==> forall|width: u32|
            #[trigger] has_width::<E>(*params, width) ==> sponge_ready::<E>(*params, width as nat),
    ensures
        exists|width: u32| #[trigger]
            has_width::<E>(*params, width) && residues(r@) == instance::<E>(
                *params,
                width as nat,
            ).hash(residues(input@)),
{
    let mut stateful = StatefulSponge::<E>::new(params);
    let ghost width = stateful@.state.len();
    let ghost m = instance::<E>(*params, width);
    proof {
        if input@.len() < m.rate {
            lemma_small_mod(input@.len(), m.rate);
        } else if input@.len() == m.rate {
            lemma_mod_self_0(m.rate as int);
        }
    }
    stateful.absorb(input);
    let ghost absorbed = stateful@;
    let capacity = params.capacity();
    let mut output: Vec<E::Fr> = Vec::with_capacity(capacity as usize);
    let mut i: u32 = 0;
    while i < capacity
        invariant
            i <= capacity,
            i == output@.len(),
            stateful.well_formed(),
            stateful.params() == *params,
            m == instance::<E>(*params, width),
            stateful@.state.len() == width,
            capacity == m.capacity,
            capacity > 0 ==> sponge_ready::<E>(*params, width),
            params.spec_rate() > 0,
            stateful@ == m.after_squeezes(absorbed, i as nat),
            forall|j: int|
                0 <= j < i ==> (#[trigger] output@[j]).residue() == m.squeeze_output(
                    m.after_squeezes(absorbed, j as nat),
                ),
        decreases capacity - i,
    {
        output.push(stateful.squeeze_out_single());
        i += 1;
    }
    assert(residues(output@) =~= m.squeeze_outputs(absorbed, m.capacity));
    assert(has_width::<E>(*params, width as u32));
    output
}

/// The hash of `input`: as many elements as the capacity of `params`.
pub fn poseidon_hash<E: PoseidonEngine>(params: &E::Params, input: &[E::Fr]) -> (r: Vec<E::Fr>)
    requires
        params.spec_capacity() + params.spec_rate() <= u32::MAX,
        params.spec_rate() > 0,
        input@.len() + padding_len(params.spec_rate() as nat, input@.len()) <= usize::MAX,
        params.spec_capacity() > 0 || input@.len() > params.spec_rate() ==> forall|width: u32|
            #[trigger] has_width::<E>(*params, width) ==> sponge_ready::<E>(*params, width as nat),
    ensures
        r@.len() == params.spec_capacity(),
        exists|width: u32| #[trigger]
            has_width::<E>(*params, width) && residues(r@) == instance::<E>(
                *params,
                width as nat,
            ).hash(residues(input@)),
{
    let r = sponge::<E>(params, input);
    assert(residues(r@).len() == r@.len());
    r
}

} // verus!
