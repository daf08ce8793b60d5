//! The Poseidon hash over a prime field: a sponge round a permutation of substitution boxes and
//! matrices.
//!
//! Every contract is stated in residues: [`permutation::Instance`] is what a set of parameters
//! stands for, and its spec functions say what the permutation, the sponge and the hash are. What
//! follows from that as a whole stands in the modules whose names end in `_laws`.

pub mod bn256;
pub mod bn256_laws;
pub mod bn256_modulus;
pub mod bn256_params;
pub mod fermat;
pub mod field;
pub mod inversion;
pub mod mds;
pub mod mds_laws;
pub mod params;
pub mod permutation;
pub mod permutation_laws;
pub mod primality;
pub mod primes;
pub mod sbox;
pub mod sbox_laws;
pub mod sponge;
pub mod sponge_laws;

pub use bn256::{Bn256, Fr, FrRepr};
pub use bn256_params::Bn256PoseidonParams;
pub use field::{Engine, PrimeField};
pub use inversion::batch_inversion;
pub use mds::{FieldRng, generate_mds_matrix, generate_mds_matrix_within,
    mds_matrix_from_points};
pub use params::{PoseidonEngine, PoseidonHashParams, PoseidonParamsInternal};
pub use permutation::{poseidon_mimc, scalar_product};
pub use sbox::{CubicSBox, InversionSBox, PowerSBox, QuinticSBox, SBox};
pub use sponge::{StatefulSponge, poseidon_hash};
