use std::marker::PhantomData;

use poseidon::{
    batch_inversion, Bn256, CubicSBox, Fr, FrRepr, InversionSBox, PowerSBox, PrimeField,
    QuinticSBox, SBox,
};

fn fr(limbs: [u64; 4]) -> Fr {
    Fr::from_repr(FrRepr(limbs)).unwrap()
}

fn small(x: u64) -> Fr {
    fr([x, 0, 0, 0])
}

fn b() -> Fr {
    fr([0x3039, 0, 0, 0x0400000000000000])
}

fn power(power: u64, precomputed_indexes: Vec<usize>) -> PowerSBox<Bn256> {
    PowerSBox {
        power: FrRepr([power, 0, 0, 0]),
        precomputed_indexes,
        inv: 0,
    }
}

#[test]
fn cubic_box_raises_to_the_third_power() {
    let sbox: CubicSBox<Bn256> = CubicSBox { _marker: PhantomData };
    let mut v = vec![small(0), small(1), small(2), b()];
    sbox.clone().apply(&mut v);
    assert_eq!(v[..3], [small(0), small(1), small(8)]);
    assert_eq!(
        v[3].into_repr(),
        FrRepr([
            0x64c04a319f0e0a98,
            0x3a2e27f7791f14d0,
            0x10f8da30985b6c42,
            0x13e79aae9b4399e6
        ])
    );
}

#[test]
fn quintic_box_raises_to_the_fifth_power() {
    let sbox: QuinticSBox<Bn256> = QuinticSBox { _marker: PhantomData };
    let mut v = vec![small(0), small(1), small(2), b()];
    sbox.clone().apply(&mut v);
    assert_eq!(v[..3], [small(0), small(1), small(32)]);
    assert_eq!(
        v[3].into_repr(),
        FrRepr([
            0x07e2c4016b50c09d,
            0xd1024022767040e6,
            0x37b688314fcefe48,
            0x14736a3450399936
        ])
    );
}

#[test]
fn power_box_without_windows_raises_to_its_power() {
    let mut v = vec![small(2), small(3)];
    power(10, vec![]).apply(&mut v);
    assert_eq!(v, vec![small(1024), small(59049)]);
    let mut w = vec![small(2), small(0)];
    power(0, vec![]).apply(&mut w);
    assert_eq!(w, vec![small(1), small(1)]);
}

#[test]
fn power_box_with_windows_raises_to_what_they_spell() {
    let mut v = vec![b(), small(2)];
    power(9, vec![3, 5]).apply(&mut v);
    assert_eq!(
        v[0].into_repr(),
        FrRepr([
            0x86f8088df7196121,
            0x96629237b21cd00a,
            0x626f634b530d8db9,
            0x12fe2f4da2cacbc4
        ])
    );
    assert_eq!(v[1], small(1 << 0x35));
    let mut w = vec![b()];
    power(9, vec![10, 0, 7]).apply(&mut w);
    assert_eq!(
        w[0].into_repr(),
        FrRepr([
            0x09c7eac5b5061a53,
            0x76a2a5e1eb897426,
            0x2a7ac640dd899eb6,
            0x14fc07f7b5a4e21c
        ])
    );
}

#[test]
fn a_single_window_counts_twice() {
    let mut v = vec![b(), small(2)];
    power(9, vec![3]).apply(&mut v);
    assert_eq!(
        v[0].into_repr(),
        FrRepr([
            0x0eb312ff24dd9586,
            0x99bb42725654fec9,
            0xae9d4c5afd6de914,
            0x1166f089288eddd1
        ])
    );
    assert_eq!(v[1], small(1 << 51));
}

#[test]
fn windows_and_power_agree() {
    let mut v = vec![small(0), small(1), small(5), b()];
    let mut w = v.clone();
    power(0, vec![1, 2, 13, 4]).apply(&mut v);
    power(0x12d4, vec![]).apply(&mut w);
    assert_eq!(v, w);
}

#[test]
fn power_box_covers_the_cubic_and_the_quintic_one() {
    let start = vec![small(0), small(6), b()];
    let (mut v, mut w) = (start.clone(), start.clone());
    power(3, vec![]).apply(&mut v);
    CubicSBox::<Bn256> { _marker: PhantomData }.apply(&mut w);
    assert_eq!(v, w);
    let (mut v, mut w) = (start.clone(), start.clone());
    power(0, vec![0, 5]).apply(&mut v);
    QuinticSBox::<Bn256> { _marker: PhantomData }.apply(&mut w);
    assert_eq!(v, w);
}

#[test]
fn the_fifth_power_is_undone() {
    let start = vec![small(0), small(1), small(6), b()];
    let mut v = start.clone();
    QuinticSBox::<Bn256> { _marker: PhantomData }.apply(&mut v);
    let back: PowerSBox<Bn256> = PowerSBox {
        power: FrRepr([
            0xcfe7f7a98ccccccd,
            0x535cb9d394945a0d,
            0x93736af8679aad17,
            0x26b6a528b427b354,
        ]),
        precomputed_indexes: vec![],
        inv: 0,
    };
    back.apply(&mut v);
    assert_eq!(v, start);
}

#[test]
fn cloned_power_box_keeps_its_fields() {
    let sbox = power(7, vec![1, 2]);
    let copy = sbox.clone();
    assert_eq!(copy.power, FrRepr([7, 0, 0, 0]));
    assert_eq!(copy.precomputed_indexes, vec![1, 2]);
    assert_eq!(copy.inv, 0);
}

#[test]
fn boxes_take_no_elements_at_all() {
    let mut v: Vec<Fr> = vec![];
    CubicSBox::<Bn256> { _marker: PhantomData }.apply(&mut v);
    InversionSBox::<Bn256> { _marker: PhantomData }.apply(&mut v);
    power(0, vec![99]).apply(&mut v);
    assert!(v.is_empty());
}

#[test]
fn batch_inversion_skips_zeros() {
    let mut v = vec![small(0), small(2), small(0), small(0), small(3), small(1), small(0)];
    batch_inversion::<Bn256>(&mut v);
    let half = fr([
        0xa1f0fac9f8000001,
        0x9419f4243cdcb848,
        0xdc2822db40c0ac2e,
        0x183227397098d014,
    ]);
    let third = fr([
        0x2d414e62a0000001,
        0x70229adafbd0f5b6,
        0xd03583cf0100e593,
        0x2042def740cbc01b,
    ]);
    assert_eq!(
        v,
        vec![small(0), half, small(0), small(0), third, small(1), small(0)]
    );
}

#[test]
fn batch_inversion_of_zeros_and_of_nothing() {
    let mut v = vec![small(0), small(0)];
    batch_inversion::<Bn256>(&mut v);
    assert_eq!(v, vec![small(0), small(0)]);
    let mut w: Vec<Fr> = vec![];
    batch_inversion::<Bn256>(&mut w);
    assert!(w.is_empty());
}

#[test]
fn batch_inversion_agrees_with_single_ones() {
    let start = vec![small(9), b(), small(1), small(77)];
    let mut v = start.clone();
    batch_inversion::<Bn256>(&mut v);
    for (x, y) in start.iter().zip(v.iter()) {
        assert_eq!(x.inverse().unwrap(), *y);
    }
}

#[test]
fn inversion_box_undoes_itself() {
    let sbox: InversionSBox<Bn256> = InversionSBox { _marker: PhantomData };
    let start = vec![small(5), small(0), b()];
    let mut v = start.clone();
    sbox.clone().apply(&mut v);
    assert_ne!(v, start);
    assert_eq!(v[1], small(0));
    sbox.apply(&mut v);
    assert_eq!(v, start);
}
