use poseidon::{FieldRng, Fr, FrRepr, PrimeField};
use rand::{ChaChaRng, Rand, SeedableRng};

const A: [u64; 4] = [0x0123456789abcdef, 0x0123456789abcdef, 0x0123456789abcdef, 0];
const B: [u64; 4] = [0x3039, 0, 0, 0x0400000000000000];
const MODULUS: [u64; 4] = [
    0x43e1f593f0000001,
    0x2833e84879b97091,
    0xb85045b68181585d,
    0x30644e72e131a029,
];

fn fr(limbs: [u64; 4]) -> Fr {
    Fr::from_repr(FrRepr(limbs)).unwrap()
}

fn small(x: u64) -> Fr {
    fr([x, 0, 0, 0])
}

fn minus_one() -> Fr {
    fr([MODULUS[0] - 1, MODULUS[1], MODULUS[2], MODULUS[3]])
}

#[test]
fn residues_are_elements_and_nothing_else_is() {
    assert_eq!(fr(A).into_repr(), FrRepr(A));
    assert_eq!(minus_one().into_repr().0[0], 0x43e1f593f0000000);
    assert!(Fr::from_repr(FrRepr(MODULUS)).is_none());
    assert!(Fr::from_repr(FrRepr([u64::MAX; 4])).is_none());
}

#[test]
fn zero_and_one() {
    assert_eq!(Fr::zero(), small(0));
    assert_eq!(Fr::one(), small(1));
    assert!(Fr::zero().is_zero());
    assert!(!Fr::one().is_zero());
    assert!(!fr(B).is_zero());
}

#[test]
fn equality_looks_at_every_limb() {
    assert!(fr(B).equals(&fr(B)));
    assert!(!fr(B).equals(&small(0x3039)));
    assert!(!small(7).equals(&small(8)));
}

#[test]
fn sums_wrap_round_the_modulus() {
    let mut x = minus_one();
    x.add_assign(&fr(B));
    assert_eq!(x.into_repr(), FrRepr([0x3038, 0, 0, 0x0400000000000000]));
    let mut y = minus_one();
    y.add_assign(&Fr::one());
    assert!(y.is_zero());
}

#[test]
fn differences_wrap_round_the_modulus() {
    let mut x = small(3);
    x.sub_assign(&small(5));
    assert_eq!(
        x.into_repr(),
        FrRepr([0x43e1f593efffffff, MODULUS[1], MODULUS[2], MODULUS[3]])
    );
    let mut y = small(5);
    y.sub_assign(&small(3));
    assert_eq!(y, small(2));
}

#[test]
fn products_are_reduced() {
    let mut x = fr(A);
    x.mul_assign(&fr(B));
    assert_eq!(
        x.into_repr(),
        FrRepr([
            0xf705ac2d3195c384,
            0xde51bb8607b5e08b,
            0x2d296937af126e22,
            0x256ea9d9926e807d
        ])
    );
}

#[test]
fn squares_are_reduced() {
    let mut x = fr(B);
    x.square();
    assert_eq!(
        x.into_repr(),
        FrRepr([
            0xfe1aa046725746d0,
            0xd5e85c1ecfc175c4,
            0xa9c8857acc7d9fe6,
            0x2fc8b5bd42ce807f
        ])
    );
}

#[test]
fn inverses_give_one() {
    let y = fr(A).inverse().unwrap();
    assert_eq!(
        y.into_repr(),
        FrRepr([
            0xd4c55e422239a186,
            0xd0419eb8c7459a15,
            0x9656dc3e8a7d2d63,
            0x07e2442d987b7b5a
        ])
    );
    let mut product = fr(A);
    product.mul_assign(&y);
    assert_eq!(product, Fr::one());
    assert!(Fr::zero().inverse().is_none());
}

#[test]
fn powers_take_exponents_of_any_size() {
    let expected = FrRepr([
        0x58ebbc5ced43665a,
        0xfb6860422309f40e,
        0x0def9d603fd094b9,
        0x249c5306e1ce9a12,
    ]);
    assert_eq!(fr(A).pow(&FrRepr(B)).into_repr(), expected);
    assert_eq!(fr(A).pow(&FrRepr([0; 4])), Fr::one());
    assert_eq!(Fr::zero().pow(&FrRepr([0; 4])), Fr::one());
    assert_eq!(small(3).pow(&FrRepr([4, 0, 0, 0])), small(81));
}

#[test]
fn powers_to_the_order_of_the_group_are_one() {
    let exponent = minus_one().into_repr();
    assert_eq!(fr(A).pow(&exponent), Fr::one());
    assert_eq!(small(2).pow(&exponent), Fr::one());
}

#[test]
fn a_product_is_zero_only_where_a_factor_is() {
    let mut x = fr(A);
    x.mul_assign(&minus_one());
    assert!(!x.is_zero());
    x.mul_assign(&Fr::zero());
    assert!(x.is_zero());
}

#[test]
fn random_elements_come_from_the_generator() {
    let seed: &[u32] = &[3, 1, 4, 1, 5];
    let mut ours = ChaChaRng::from_seed(seed);
    let mut theirs = ChaChaRng::from_seed(seed);
    let mut drawn = Vec::new();
    for _ in 0..8 {
        let x: Fr = ours.gen();
        let y = pairing_ce::bn256::Fr::rand(&mut theirs);
        let repr = pairing_ce::ff::PrimeField::into_repr(&y);
        assert_eq!(x.into_repr().0, repr.0);
        drawn.push(x);
    }
    assert_ne!(drawn[0], drawn[1]);
}
