//! Laws of the parameters over the scalar field of the BN256 curve.

use vstd::prelude::*;
use vstd::arithmetic::power::{lemma_pow1, lemma_pow_adds};
use vstd::arithmetic::power2::{lemma2_to64, pow2};
use crate::bn256::{Bn256, Fr, FrRepr, fr_modulus, limbs_value};
use crate::bn256_modulus::lemma_fr_modulus_is_prime;
use crate::bn256_params::Bn256PoseidonParams;
use crate::field::{PrimeField, in_range};
use crate::mds::is_cauchy;
use crate::params::{PoseidonHashParams, PoseidonParamsInternal};
use crate::permutation::{has_width, instance, permutation_ready};
use crate::permutation_laws::{is_state, law_power_and_generated_matrix_permute};
use crate::sbox::map_power;

verus! {

/// With a generated matrix the parameters make a permutation: the fifth power takes different
/// elements to different elements, as does everything else in a round.
pub proof fn law_generated_matrix_permutes(
    params: Bn256PoseidonParams,
    x: Seq<int>,
    y: Seq<int>,
    s: Seq<int>,
    t: Seq<int>,
)
    requires
        permutation_ready::<Bn256>(params, params.width() as nat),
        x.len() == params.width(),
        in_range(fr_modulus(), x),
        in_range(fr_modulus(), y),
        (x + y).no_duplicates(),
        is_cauchy(fr_modulus(), x, y, params.matrix()),
        is_state(instance::<Bn256>(params, params.width() as nat), s),
        is_state(instance::<Bn256>(params, params.width() as nat), t),
        instance::<Bn256>(params, params.width() as nat).permute(s) == instance::<Bn256>(params, params.width() as nat).permute(t),
    ensures
        s == t,
{
    let m = instance::<Bn256>(params, params.width() as nat);
    lemma_fr_modulus_is_prime();
    assert(m.matrix =~= Seq::new(
        m.width,
        |row: int| params.matrix().subrange(row * m.width, (row + 1) * m.width),
    ));
    assert forall|u: Seq<int>| #[trigger] (m.sbox)(u) == map_power(m.modulus, u, 5) by {}
    // The power that undoes the fifth one.
    law_power_and_generated_matrix_permute(
        m,
        5,
        17510594297471420177797124596205820070838691520332827474958563349260646796493nat,
        4,
        x,
        y,
        params.matrix(),
        s,
        t,
    );
}

/// The constants and the matrix are held in order: the constants of one round after those of the
/// other, and the matrix row by row, each as wide as the state.
pub proof fn law_constants_and_rows_are_in_order(
    params: Bn256PoseidonParams,
    index: u32,
    i: int,
)
    requires
        0 <= i < params.width(),
    ensures
        params.width() == params.spec_capacity() + params.spec_rate(),
        (index + 1) * params.width() <= params.all_round_constants().len() ==> {
            &&& params.spec_round_constants(index).len() == params.width()
            &&& params.spec_round_constants(index)[i] == params.all_round_constants()[index
                * params.width() + i]
        },
        (index + 1) * params.width() <= params.matrix().len() ==> {
            &&& params.spec_mds_matrix_row(index).len() == params.width()
            &&& params.spec_mds_matrix_row(index)[i] == params.matrix()[index * params.width() + i]
        },
        params.width() <= u32::MAX && (index + 1) * params.width()
            <= params.all_round_constants().len() ==> params.has_round(index),
        params.width() <= u32::MAX && (index + 1) * params.width() <= params.matrix().len()
            ==> params.has_row(index),
{
    let (w, k) = (params.width(), index as int);
    assert(0 <= k * w && (k + 1) * w == k * w + w) by (nonlinear_arith)
        requires
            0 <= k,
            0 <= w,
    ;
}

/// The box of the parameters raises to the fifth power.
pub proof fn law_parameters_raise_to_the_fifth_power(
    params: Bn256PoseidonParams,
    width: nat,
    s: Seq<int>,
    i: int,
)
    requires
        0 <= i < s.len(),
    ensures
        (instance::<Bn256>(params, width).sbox)(s).len() == s.len(),
        (instance::<Bn256>(params, width).sbox)(s)[i] == (s[i] * s[i] * s[i] * s[i] * s[i])
            % fr_modulus(),
{
    let x = s[i];
    lemma_pow1(x);
    lemma_pow_adds(x, 1, 1);
    lemma_pow_adds(x, 2, 1);
    lemma_pow_adds(x, 3, 1);
    lemma_pow_adds(x, 4, 1);
}

/// Limbs are digits to the base of two to the power of 64, the least significant one first.
pub proof fn law_limbs_are_digits(limbs: [u64; 4])
    ensures
        limbs_value(limbs) == limbs@[0] + pow2(64) * (limbs@[1] + pow2(64) * (limbs@[2] + pow2(64)
            * limbs@[3])),
        FrRepr(limbs).value() == limbs_value(limbs),
        <Fr as PrimeField>::repr_value(FrRepr(limbs)) == limbs_value(limbs),
        <Fr as PrimeField>::modulus() == fr_modulus(),
{
    lemma2_to64();
}

/// What the methods give that the parameters do not override: the state is as wide as capacity and
/// rate together, a digest as long as the capacity, a cycle as long as the rate, and the compression
/// rate is their quotient.
pub proof fn law_provided_methods(params: Bn256PoseidonParams, r: u32)
    ensures
        has_width::<Bn256>(params, r) ==> r == params.spec_capacity() + params.spec_rate(),
        call_ensures(
            <Bn256PoseidonParams as PoseidonHashParams<Bn256>>::state_width,
            (&params,),
            r,
        ) ==> r == params.spec_capacity() + params.spec_rate(),
        call_ensures(
            <Bn256PoseidonParams as PoseidonHashParams<Bn256>>::output_len,
            (&params,),
            r,
        ) ==> r == params.spec_capacity(),
        call_ensures(
            <Bn256PoseidonParams as PoseidonHashParams<Bn256>>::absorbtion_cycle_len,
            (&params,),
            r,
        ) ==> r == params.spec_rate(),
        call_ensures(
            <Bn256PoseidonParams as PoseidonHashParams<Bn256>>::compression_rate,
            (&params,),
            r,
        ) ==> r == params.spec_rate() / params.spec_capacity(),
{
}

} // verus!
