use poseidon::{
    mds_matrix_from_points, poseidon_hash, poseidon_mimc, scalar_product, Bn256,
    Bn256PoseidonParams, Fr, FrRepr, PoseidonHashParams, PoseidonParamsInternal, StatefulSponge,
};

fn fr(limbs: [u64; 4]) -> Fr {
    Fr::from_repr(FrRepr(limbs)).unwrap()
}

fn small(x: u64) -> Fr {
    fr([x, 0, 0, 0])
}

fn smalls(v: &[u64]) -> Vec<Fr> {
    v.iter().map(|x| small(*x)).collect()
}

fn matrix() -> Vec<Fr> {
    mds_matrix_from_points::<Bn256>(&smalls(&[1, 2, 3]), &smalls(&[4, 5, 6])).unwrap()
}

fn constants(n: u64) -> Vec<Fr> {
    (1..n + 1).map(small).collect()
}

fn params() -> Bn256PoseidonParams {
    Bn256PoseidonParams::new(1, 2, 4, 3, 80, constants(21), matrix()).unwrap()
}

fn hash(input: &[u64]) -> Vec<Fr> {
    poseidon_hash::<Bn256>(&params(), &smalls(input))
}

fn of_one_two() -> [Fr; 5] {
    [
        fr([
            0x5c1ed696e7aad01e,
            0x4bb0c2ad1c45048c,
            0xbe7b5c6a1b59d83a,
            0x0c05d13969595016,
        ]),
        fr([
            0x292a0bc6cb1a270d,
            0xdd64fac02ee678b4,
            0xf72fec725e84dee6,
            0x11e18d50e8df9f45,
        ]),
        fr([
            0xfe4b472bddc72ea9,
            0xc475b5ff46d6468c,
            0x828ab20d21ab6ab7,
            0x021847f35fc39c20,
        ]),
        fr([
            0x31325b932d1b348a,
            0x2eba540b49cca7c6,
            0x18f5101097c5fd6c,
            0x300b52e60824b24c,
        ]),
        fr([
            0x0ebe2bff9e75eb4e,
            0x2351a9f2c196465e,
            0x77d132e01e302aa6,
            0x0d41e5af10481092,
        ]),
    ]
}

#[test]
fn scalar_product_sums_the_products() {
    let a = fr([0x0123456789abcdef, 0x0123456789abcdef, 0x0123456789abcdef, 0]);
    let b = fr([0x3039, 0, 0, 0x0400000000000000]);
    assert_eq!(
        scalar_product::<Bn256>(&[a, b], &[b, small(7)]),
        fr([
            0xb323b69941971512,
            0xb61dd33d8dfc6ffa,
            0x74d923812d9115c5,
            0x110a5b66b13ce053
        ])
    );
    assert_eq!(scalar_product::<Bn256>(&smalls(&[2, 3]), &smalls(&[10, 100])), small(320));
    assert_eq!(scalar_product::<Bn256>(&[], &[]), small(0));
}

#[test]
fn permutation_of_a_state() {
    assert_eq!(
        poseidon_mimc::<Bn256>(&params(), &smalls(&[1, 2, 3])),
        vec![
            fr([
                0xda6bc44612897da4,
                0x2e19344940757e12,
                0xd234882678431754,
                0x01305a5f400fe9a4
            ]),
            fr([
                0xd7460339a0993fc7,
                0xf5ee72fd73daec6c,
                0x175d2b7a840c88a4,
                0x18b699fe26bc2020
            ]),
            fr([
                0xd289f37a82b943ed,
                0xfee9bf8f413ac302,
                0x7f7fed25665b02db,
                0x0145c559131e758f
            ]),
        ]
    );
}

#[test]
fn permutation_without_rounds_changes_nothing() {
    let params = Bn256PoseidonParams::new(1, 2, 0, 0, 80, vec![], matrix()).unwrap();
    let state = smalls(&[4, 5, 6]);
    assert_eq!(poseidon_mimc::<Bn256>(&params, &state), state);
}

#[test]
fn a_partial_round_substitutes_the_last_element_alone() {
    let identity = smalls(&[1, 0, 0, 0, 1, 0, 0, 0, 1]);
    let params =
        Bn256PoseidonParams::new(1, 2, 0, 1, 80, smalls(&[1, 1, 1]), identity).unwrap();
    assert_eq!(
        poseidon_mimc::<Bn256>(&params, &smalls(&[1, 1, 1])),
        smalls(&[2, 2, 32])
    );
}

#[test]
fn full_rounds_surround_partial_ones() {
    let identity = smalls(&[1, 0, 0, 1]);
    let zeros = smalls(&[0; 6]);
    let params = Bn256PoseidonParams::new(1, 1, 2, 1, 80, zeros, identity).unwrap();
    assert_eq!(
        poseidon_mimc::<Bn256>(&params, &smalls(&[2, 1])),
        smalls(&[1 << 25, 1])
    );
}

#[test]
fn different_states_stay_different() {
    let p = params();
    let mut seen: Vec<Vec<Fr>> = Vec::new();
    for a in 0..3 {
        for b in 0..3 {
            for c in 0..3 {
                let r = poseidon_mimc::<Bn256>(&p, &smalls(&[a, b, c]));
                assert_eq!(r.len(), 3);
                assert!(!seen.contains(&r));
                seen.push(r);
            }
        }
    }
}

#[test]
fn hashes_of_one_block() {
    assert_eq!(hash(&[1, 2]), vec![of_one_two()[0]]);
    assert_eq!(
        hash(&[2]),
        vec![fr([
            0x68344ea56839f809,
            0xad045f3d3edab648,
            0x30b91c21c3f9b2b7,
            0x11e623fbe2fb9139
        ])]
    );
}

#[test]
fn hash_of_one_block_is_the_start_of_a_permutation() {
    let state = poseidon_mimc::<Bn256>(&params(), &smalls(&[1, 2, 0]));
    assert_eq!(hash(&[1, 2])[0], state[0]);
    let padded = poseidon_mimc::<Bn256>(&params(), &smalls(&[2, 1, 0]));
    assert_eq!(hash(&[2])[0], padded[0]);
}

#[test]
fn hashes_of_more_blocks() {
    assert_eq!(
        hash(&[1, 2, 3]),
        vec![fr([
            0x7d852e5a7231995d,
            0x73ac5aab6220fe87,
            0xbe82c684a0b32cc3,
            0x0e40662b203d668d
        ])]
    );
    assert_eq!(
        hash(&[7, 8, 9, 10, 11]),
        vec![fr([
            0xf6a22cea2e1ab1a2,
            0xfb9295f61f7e355b,
            0xca6cf233358ed5f2,
            0x019e3247bb4cbb90
        ])]
    );
}

#[test]
fn trailing_ones_are_padding() {
    assert_eq!(hash(&[1, 2, 3]), hash(&[1, 2, 3, 1]));
    assert_eq!(hash(&[2]), hash(&[2, 1]));
    assert_ne!(hash(&[1, 2]), hash(&[1, 2, 1]));
}

#[test]
fn no_input_hashes_as_a_block_of_ones() {
    let expected = vec![fr([
        0x0f3884f337aeb22c,
        0x63a619c4c98887b7,
        0xce40f991e82fa6c0,
        0x0cd063b85a7d1084,
    ])];
    assert_eq!(hash(&[]), expected);
    assert_eq!(hash(&[1]), expected);
    assert_eq!(hash(&[1, 1]), expected);
}

#[test]
fn a_digest_longer_than_a_block_permutes_again() {
    let params = Bn256PoseidonParams::new(2, 1, 2, 1, 80, constants(9), matrix()).unwrap();
    assert_eq!(
        poseidon_hash::<Bn256>(&params, &smalls(&[5])),
        vec![
            fr([
                0xab3066842a83f2db,
                0xae4d302b1ae8630f,
                0x26665a9ee1b07743,
                0x124c021c3df1d4a9
            ]),
            fr([
                0x2c85ec3ff82ea651,
                0xedf3514f2ee74651,
                0xfea8f92a3557f810,
                0x1bec36ad49d3f1f2
            ]),
        ]
    );
    assert_eq!(
        poseidon_hash::<Bn256>(&params, &smalls(&[5, 6])),
        vec![
            fr([
                0x82afbd54d77d8b43,
                0xc598c7f6394b0819,
                0x09cf4f4b1eadeb99,
                0x05290b67245533b2
            ]),
            fr([
                0x32aefd41999c93d6,
                0x7efb89c44e4746d2,
                0xbdd8a67b777f9a70,
                0x12942a37277b8153
            ]),
        ]
    );
}

#[test]
fn a_capacity_of_zero_gives_an_empty_digest() {
    let params = Bn256PoseidonParams::new(0, 3, 2, 1, 80, constants(9), matrix()).unwrap();
    assert!(poseidon_hash::<Bn256>(&params, &smalls(&[5, 6, 7, 8])).is_empty());
}

#[test]
fn squeezing_hands_out_blocks_in_order() {
    let p = params();
    let mut sponge = StatefulSponge::<Bn256>::new(&p);
    sponge.absorb(&smalls(&[1, 2]));
    for expected in of_one_two() {
        assert_eq!(sponge.squeeze_out_single(), expected);
    }
    let first = poseidon_mimc::<Bn256>(&p, &smalls(&[1, 2, 0]));
    assert_eq!(of_one_two()[..2], first[..2]);
    let second = poseidon_mimc::<Bn256>(&p, &first);
    assert_eq!(of_one_two()[2..4], second[..2]);
}

#[test]
fn absorbing_one_by_one_agrees_with_absorbing_at_once() {
    let p = params();
    let input = smalls(&[7, 8, 9, 10]);
    let mut at_once = StatefulSponge::<Bn256>::new(&p);
    at_once.absorb(&input);
    let mut singly = StatefulSponge::<Bn256>::new(&p);
    for x in input.iter() {
        singly.absorb_single_value(*x);
    }
    let mut pieces = StatefulSponge::<Bn256>::new(&p);
    pieces.absorb(&input[..2]);
    pieces.absorb(&[]);
    pieces.absorb(&input[2..]);
    for _ in 0..3 {
        let x = at_once.squeeze_out_single();
        assert_eq!(singly.squeeze_out_single(), x);
        assert_eq!(pieces.squeeze_out_single(), x);
    }
}

#[test]
fn a_cut_inside_a_block_is_padded() {
    let p = params();
    let mut sponge = StatefulSponge::<Bn256>::new(&p);
    sponge.absorb(&smalls(&[7]));
    sponge.absorb(&smalls(&[8]));
    assert_eq!(vec![sponge.squeeze_out_single()], hash(&[7, 1, 8]));
    assert_ne!(hash(&[7, 1, 8]), hash(&[7, 8]));
}

#[test]
fn absorbing_after_squeezing_keeps_the_state() {
    let p = params();
    let mut sponge = StatefulSponge::<Bn256>::new(&p);
    sponge.absorb_single_value(small(4));
    assert_eq!(
        sponge.squeeze_out_single(),
        fr([
            0x899363d3e476162b,
            0xf1d110354f81a1b1,
            0x5412d9b392601c9c,
            0x1607391cf6a5f219
        ])
    );
    sponge.absorb_single_value(small(9));
    assert_eq!(
        sponge.squeeze_out_single(),
        fr([
            0x0979ef809acfb12e,
            0xc2fcea8a9d6ac14f,
            0xcd4c4a07f35a01e4,
            0x120b3368a86d38f8
        ])
    );
}

#[test]
fn left_over_output_is_dropped() {
    let p = params();
    let mut one = StatefulSponge::<Bn256>::new(&p);
    one.absorb(&smalls(&[3, 4]));
    let mut two = one.clone();
    one.squeeze_out_single();
    two.squeeze_out_single();
    two.squeeze_out_single();
    one.absorb_single_value(small(5));
    two.absorb_single_value(small(5));
    assert_eq!(one.squeeze_out_single(), two.squeeze_out_single());
}

#[test]
fn a_clone_goes_its_own_way() {
    let p = params();
    let mut sponge = StatefulSponge::<Bn256>::new(&p);
    sponge.absorb_single_value(small(1));
    let mut copy = sponge.clone();
    sponge.absorb_single_value(small(3));
    copy.absorb_single_value(small(2));
    assert_eq!(copy.squeeze_out_single(), of_one_two()[0]);
    let mut squeezed = copy.clone();
    assert_eq!(copy.squeeze_out_single(), of_one_two()[1]);
    assert_eq!(squeezed.squeeze_out_single(), of_one_two()[1]);
    assert_eq!(squeezed.squeeze_out_single(), of_one_two()[2]);
    assert_eq!(vec![sponge.squeeze_out_single()], hash(&[1, 3]));
}

#[test]
fn parameters_answer_what_they_were_made_with() {
    let p = params();
    assert_eq!(p.capacity(), 1);
    assert_eq!(p.rate(), 2);
    assert_eq!(p.state_width(), 3);
    assert_eq!(p.num_full_rounds(), 4);
    assert_eq!(p.num_partial_rounds(), 3);
    assert_eq!(p.security_level(), 80);
    assert_eq!(p.output_len(), 1);
    assert_eq!(p.absorbtion_cycle_len(), 2);
    assert_eq!(p.compression_rate(), 2);
    assert_eq!(p.round_constants(2), &smalls(&[7, 8, 9])[..]);
    assert_eq!(p.mds_matrix_row(1), &matrix()[3..6]);
    let wide = Bn256PoseidonParams::new(2, 5, 0, 0, 128, vec![], smalls(&[0; 49])).unwrap();
    assert_eq!(wide.compression_rate(), 2);
}

#[test]
fn parameters_that_do_not_fit_are_refused() {
    let make = |capacity: u32, rate: u32, full: u32, partial: u32, n: u64, m: Vec<Fr>| {
        Bn256PoseidonParams::new(capacity, rate, full, partial, 80, constants(n), m).is_some()
    };
    assert!(make(1, 2, 2, 1, 9, matrix()));
    assert!(!make(1, 2, 3, 0, 9, matrix()));
    assert!(!make(1, 2, 2, 1, 8, matrix()));
    assert!(!make(1, 2, 2, 1, 10, matrix()));
    assert!(!make(1, 2, 2, 1, 9, smalls(&[1; 8])));
    assert!(!make(0, 0, 2, 1, 0, vec![]));
    assert!(!make(u32::MAX, 1, 0, 0, 0, vec![]));
    assert!(!make(1, 2, u32::MAX - 1, 2, 0, matrix()));
}

#[test]
fn replacing_the_round_constants_changes_the_hash_and_nothing_else() {
    let mut p = params();
    let before = p.clone();
    let reversed: Vec<Fr> = constants(21).into_iter().rev().collect();
    p.set_round_constants(reversed);
    assert_eq!(p.round_constants(0), &smalls(&[21, 20, 19])[..]);
    assert_eq!(p.mds_matrix_row(2), before.mds_matrix_row(2));
    assert_eq!(p.state_width(), before.state_width());
    assert_ne!(
        poseidon_hash::<Bn256>(&p, &smalls(&[1, 2])),
        poseidon_hash::<Bn256>(&before, &smalls(&[1, 2]))
    );
    p.set_round_constants(constants(21));
    assert_eq!(
        poseidon_hash::<Bn256>(&p, &smalls(&[1, 2])),
        vec![of_one_two()[0]]
    );
}
