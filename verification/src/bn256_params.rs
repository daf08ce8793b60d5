//! Parameters over the scalar field of the BN256 curve.

use std::marker::PhantomData;
use vstd::prelude::*;
use crate::bn256::{Bn256, Fr};
use crate::field::residues;
use crate::params::{PoseidonEngine, PoseidonHashParams, PoseidonParamsInternal};
use crate::permutation::{copy_elements, permutation_ready};
use crate::sbox::{QuinticSBox, SBox};

verus! {

/// Parameters with the fifth power for their substitution box.
pub struct Bn256PoseidonParams {
    capacity: u32,
    rate: u32,
    full_rounds: u32,
    partial_rounds: u32,
    security_level: u32,
    round_constants: Vec<Fr>,
    mds_matrix: Vec<Fr>,
    sbox: QuinticSBox<Bn256>,
}

/// The block that starts at `index * width`.
pub open spec fn block<T>(s: Seq<T>, width: int, index: int) -> Seq<T> {
    s.subrange(index * width, (index + 1) * width)
}

/// The block that starts at `index * width`.
fn slice_block(s: &Vec<Fr>, width: u32, index: u32) -> (r: &[Fr])
    requires
        (index + 1) * width <= s@.len(),
    ensures
        r@ == block(s@, width as int, index as int),
{
    proof {
        lemma_block_position(width as int, index as int);
        assert(s.len() == s@.len());
    }
    let start = index as usize * width as usize;
    let (_, tail) = s.as_slice().split_at(start);
    let (r, _) = tail.split_at(width as usize);
    assert(r@ =~= block(s@, width as int, index as int));
    r
}

/// Where a block lies.
proof fn lemma_block_position(width: int, index: int)
    requires
        0 <= width,
        0 <= index,
    ensures
        0 <= index * width,
        (index + 1) * width == index * width + width,
{
    assert(0 <= index * width && (index + 1) * width == index * width + width) by (nonlinear_arith)
        requires
            0 <= width,
            0 <= index,
    ;
}

/// The residues of a block are a block of the residues.
proof fn lemma_residues_of_block(s: Seq<Fr>, width: int, index: int)
    requires
        0 <= width,
        0 <= index,
        (index + 1) * width <= s.len(),
    ensures
        residues(block(s, width, index)) == block(residues(s), width, index),
{
    lemma_block_position(width, index);
    assert(residues(block(s, width, index)) =~= block(residues(s), width, index));
}

impl Clone for Bn256PoseidonParams {
    fn clone(&self) -> (r: Self)
        ensures
            r.spec_capacity() == self.spec_capacity(),
            r.spec_rate() == self.spec_rate(),
            r.spec_num_full_rounds() == self.spec_num_full_rounds(),
            r.spec_num_partial_rounds() == self.spec_num_partial_rounds(),
            r.spec_security_level() == self.spec_security_level(),
            r.spec_sbox() == self.spec_sbox(),
            r.all_round_constants() == self.all_round_constants(),
            r.matrix() == self.matrix(),
    {
        Bn256PoseidonParams {
            capacity: self.capacity,
            rate: self.rate,
            full_rounds: self.full_rounds,
            partial_rounds: self.partial_rounds,
            security_level: self.security_level,
            round_constants: copy_elements(self.round_constants.as_slice()),
            mds_matrix: copy_elements(self.mds_matrix.as_slice()),
            sbox: self.sbox.clone(),
        }
    }
}

impl PoseidonParamsInternal<Bn256> for Bn256PoseidonParams {
    closed spec fn all_round_constants(&self) -> Seq<int> {
        residues(self.round_constants@)
    }

    fn set_round_constants(&mut self, to: Vec<Fr>)
        ensures
            final(self).spec_capacity() == old(self).spec_capacity(),
            final(self).spec_rate() == old(self).spec_rate(),
            final(self).spec_num_full_rounds() == old(self).spec_num_full_rounds(),
            final(self).spec_num_partial_rounds() == old(self).spec_num_partial_rounds(),
            final(self).spec_security_level() == old(self).spec_security_level(),
            final(self).spec_sbox() == old(self).spec_sbox(),
            final(self).matrix() == old(self).matrix(),
    {
        self.round_constants = to;
    }
}

impl PoseidonHashParams<Bn256> for Bn256PoseidonParams {
    type SBox = QuinticSBox<Bn256>;

    closed spec fn spec_capacity(&self) -> u32 {
        self.capacity
    }

    closed spec fn spec_rate(&self) -> u32 {
        self.rate
    }

    closed spec fn spec_num_full_rounds(&self) -> u32 {
        self.full_rounds
    }

    closed spec fn spec_num_partial_rounds(&self) -> u32 {
        self.partial_rounds
    }

    closed spec fn spec_security_level(&self) -> u32 {
        self.security_level
    }

    closed spec fn spec_sbox(&self) -> QuinticSBox<Bn256> {
        self.sbox
    }

    open spec fn has_round(&self, round: u32) -> bool {
        &&& self.width() <= u32::MAX
        &&& (round + 1) * self.width() <= self.all_round_constants().len()
    }

    open spec fn spec_round_constants(&self, round: u32) -> Seq<int> {
        block(self.all_round_constants(), self.width(), round as int)
    }

    open spec fn has_row(&self, row: u32) -> bool {
        &&& self.width() <= u32::MAX
        &&& (row + 1) * self.width() <= self.matrix().len()
    }

    open spec fn spec_mds_matrix_row(&self, row: u32) -> Seq<int> {
        block(self.matrix(), self.width(), row as int)
    }

    fn capacity(&self) -> (r: u32) {
        self.capacity
    }

    fn rate(&self) -> (r: u32) {
        self.rate
    }

    fn num_full_rounds(&self) -> (r: u32) {
        self.full_rounds
    }

    fn num_partial_rounds(&self) -> (r: u32) {
        self.partial_rounds
    }

    fn round_constants(&self, round: u32) -> (r: &[Fr]) {
        proof {
            lemma_residues_of_block(self.round_constants@, self.width(), round as int);
        }
        slice_block(&self.round_constants, self.state_width(), round)
    }

    fn mds_matrix_row(&self, row: u32) -> (r: &[Fr]) {
        proof {
            lemma_residues_of_block(self.mds_matrix@, self.width(), row as int);
        }
        slice_block(&self.mds_matrix, self.state_width(), row)
    }

    fn security_level(&self) -> (r: u32) {
        self.security_level
    }

    fn sbox(&self) -> (r: &QuinticSBox<Bn256>) {
        &self.sbox
    }
}

impl PoseidonEngine for Bn256 {
    type Params = Bn256PoseidonParams;
}

impl Bn256PoseidonParams {
    /// The number of elements of the state.
    pub open spec fn width(&self) -> int {
        self.spec_capacity() + self.spec_rate()
    }

    /// The residues of the matrix, row by row.
    pub closed spec fn matrix(&self) -> Seq<int> {
        residues(self.mds_matrix@)
    }

    /// Parameters from their parts: the constants of one round after the other, and the matrix
    /// row by row. None unless the parts fit each other: an even number of full rounds, a state
    /// that is not empty, and as many constants and entries as the rounds and the state ask for.
    pub fn new(
        capacity: u32,
        rate: u32,
        full_rounds: u32,
        partial_rounds: u32,
        security_level: u32,
        round_constants: Vec<Fr>,
        mds_matrix: Vec<Fr>,
    ) -> (r: Option<Self>)
        ensures
            r is Some <==> {
                &&& 0 < capacity + rate <= u32::MAX
                &&& full_rounds + partial_rounds <= u32::MAX
                &&& full_rounds % 2 == 0
                &&& round_constants@.len() == (full_rounds + partial_rounds) * (capacity + rate)
                &&& mds_matrix@.len() == (capacity + rate) * (capacity + rate)
            },
            r matches Some(params) ==> {
                &&& permutation_ready::<Bn256>(params, (capacity + rate) as nat)
                &&& params.spec_capacity() == capacity
                &&& params.spec_rate() == rate
                &&& params.spec_num_full_rounds() == full_rounds
                &&& params.spec_num_partial_rounds() == partial_rounds
                &&& params.spec_security_level() == security_level
                &&& params.all_round_constants() == residues(round_constants@)
                &&& params.matrix() == residues(mds_matrix@)
            },
    {
        let width = capacity as u64 + rate as u64;
        let rounds = full_rounds as u64 + partial_rounds as u64;
        if width == 0 || width > u32::MAX as u64 || rounds > u32::MAX as u64 || full_rounds % 2
            != 0 {
            return None;
        }
        assert(rounds * width <= 0xffff_ffff * 0xffff_ffff && width * width <= 0xffff_ffff
            * 0xffff_ffff) by (nonlinear_arith)
            requires
                rounds <= 0xffff_ffff,
                width <= 0xffff_ffff,
        ;
        if round_constants.len() as u64 != rounds * width || mds_matrix.len() as u64 != width
            * width {
            return None;
        }
        let params = Bn256PoseidonParams {
            capacity,
            rate,
            full_rounds,
            partial_rounds,
            security_level,
            round_constants,
            mds_matrix,
            sbox: QuinticSBox { _marker: PhantomData },
        };
        proof {
            assert forall|round: u32| round < rounds implies #[trigger] params.has_round(round) by {
                assert((round + 1) * width <= rounds * width) by (nonlinear_arith)
                    requires
                        round + 1 <= rounds,
                ;
            }
            assert forall|row: u32| row < width implies #[trigger] params.has_row(row)
                && params.spec_mds_matrix_row(row).len() == width by {
                assert((row + 1) * width <= width * width) by (nonlinear_arith)
                    requires
                        row + 1 <= width,
                ;
                lemma_block_position(width as int, row as int);
            }
        }
        Some(params)
    }
}

} // verus!
