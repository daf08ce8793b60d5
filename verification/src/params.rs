//! What a hash is instantiated with.

use vstd::prelude::*;
use crate::field::{Engine, residues};
use crate::sbox::SBox;

verus! {

/// The part of the parameters that can be replaced after they were made.
pub trait PoseidonParamsInternal<E: Engine>: Send + Sync + Sized + Clone {
    /// The residues of the round constants of all rounds, in one sequence.
    spec fn all_round_constants(&self) -> Seq<int>;

    /// Replaces the round constants of all rounds.
    fn set_round_constants(&mut self, to: Vec<E::Fr>)
        ensures
            final(self).all_round_constants() == residues(to@),
    ;
}

/// The parameters of a hash.
pub trait PoseidonHashParams<E: Engine>: PoseidonParamsInternal<E> {
    /// The substitution box of the permutation.
    type SBox: SBox<E>;

    spec fn spec_capacity(&self) -> u32;

    spec fn spec_rate(&self) -> u32;

    spec fn spec_num_full_rounds(&self) -> u32;

    spec fn spec_num_partial_rounds(&self) -> u32;

    spec fn spec_security_level(&self) -> u32;

    spec fn spec_sbox(&self) -> Self::SBox;

    /// Whether the parameters hold constants for the round.
    spec fn has_round(&self, round: u32) -> bool;

    /// The residues of the constants that the round adds to the state.
    spec fn spec_round_constants(&self, round: u32) -> Seq<int>;

    /// Whether the parameters hold this row of the matrix.
    spec fn has_row(&self, row: u32) -> bool;

    /// The residues of a row of the matrix that mixes the state.
    spec fn spec_mds_matrix_row(&self, row: u32) -> Seq<int>;

    /// The number of elements of the state that input never reaches directly.
    fn capacity(&self) -> (r: u32)
        ensures
            r == self.spec_capacity(),
    ;

    /// The number of elements that are absorbed or squeezed between two permutations.
    fn rate(&self) -> (r: u32)
        ensures
            r == self.spec_rate(),
    ;

    /// The number of elements of the state: unless the parameters say otherwise, those that input
    /// reaches and those that it does not.
    fn state_width(&self) -> (r: u32)
        requires
            self.spec_capacity() + self.spec_rate() <= u32::MAX,
        default_ensures
            r == self.spec_capacity() + self.spec_rate(),
    {
        self.capacity() + self.rate()
    }

    /// The number of rounds that substitute the whole state.
    fn num_full_rounds(&self) -> (r: u32)
        ensures
            r == self.spec_num_full_rounds(),
    ;

    /// The number of rounds that substitute the last element alone.
    fn num_partial_rounds(&self) -> (r: u32)
        ensures
            r == self.spec_num_partial_rounds(),
    ;

    /// The constants that the round adds to the state.
    fn round_constants(&self, round: u32) -> (r: &[E::Fr])
        requires
            self.has_round(round),
        ensures
            residues(r@) == self.spec_round_constants(round),
    ;

    /// A row of the matrix that mixes the state.
    fn mds_matrix_row(&self, row: u32) -> (r: &[E::Fr])
        requires
            self.has_row(row),
        ensures
            residues(r@) == self.spec_mds_matrix_row(row),
    ;

    /// The security level in bits that the parameters are meant for.
    fn security_level(&self) -> (r: u32)
        ensures
            r == self.spec_security_level(),
    ;

    /// The number of elements of a digest: unless the parameters say otherwise, the capacity.
    fn output_len(&self) -> (r: u32)
        default_ensures
            r == self.spec_capacity(),
    {
        self.capacity()
    }

    /// The number of elements that are absorbed between two permutations: unless the parameters
    /// say otherwise, the rate.
    fn absorbtion_cycle_len(&self) -> (r: u32)
        default_ensures
            r == self.spec_rate(),
    {
        self.rate()
    }

    /// How many elements of input one permutation takes in for each element of a digest: unless
    /// the parameters say otherwise, the quotient of `absorbtion_cycle_len` and `output_len`.
    fn compression_rate(&self) -> (r: u32)
        requires
            forall|n: u32| #[trigger] call_ensures(Self::output_len, (self,), n) ==> n > 0,
        default_ensures
            exists|m: u32, n: u32| #[trigger]
                call_ensures(Self::absorbtion_cycle_len, (self,), m) && #[trigger] call_ensures(
                    Self::output_len,
                    (self,),
                    n,
                ) && r == m / n,
    {
        self.absorbtion_cycle_len() / self.output_len()
    }

    /// The substitution box of the permutation.
    fn sbox(&self) -> (r: &Self::SBox)
        ensures
            *r == self.spec_sbox(),
    ;
}

/// A field together with the type of the parameters to hash over it with.
pub trait PoseidonEngine: Engine {
    /// The type of the parameters.
    type Params: PoseidonHashParams<Self>;
}

} // verus!
