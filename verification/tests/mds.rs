use poseidon::{
    generate_mds_matrix, generate_mds_matrix_within, mds_matrix_from_points, Bn256, FieldRng, Fr,
    FrRepr, PrimeField,
};
use rand::{ChaChaRng, SeedableRng};

fn fr(limbs: [u64; 4]) -> Fr {
    Fr::from_repr(FrRepr(limbs)).unwrap()
}

fn small(x: u64) -> Fr {
    fr([x, 0, 0, 0])
}

fn smalls(v: &[u64]) -> Vec<Fr> {
    v.iter().map(|x| small(*x)).collect()
}

struct Listed {
    elements: Vec<u64>,
    next: usize,
}

impl FieldRng<Fr> for Listed {
    fn gen(&mut self) -> Fr {
        let x = self.elements[self.next];
        self.next += 1;
        small(x)
    }
}

#[test]
fn entries_are_inverse_differences() {
    let m = mds_matrix_from_points::<Bn256>(&smalls(&[1, 2]), &smalls(&[3, 5])).unwrap();
    assert_eq!(
        m,
        vec![
            fr([
                0xa1f0fac9f8000000,
                0x9419f4243cdcb848,
                0xdc2822db40c0ac2e,
                0x183227397098d014
            ]),
            fr([
                0x50f87d64fc000000,
                0x4a0cfa121e6e5c24,
                0x6e14116da0605617,
                0x0c19139cb84c680a
            ]),
            fr([
                0x43e1f593f0000000,
                0x2833e84879b97091,
                0xb85045b68181585d,
                0x30644e72e131a029
            ]),
            fr([
                0x16a0a73150000000,
                0xb8114d6d7de87adb,
                0xe81ac1e7808072c9,
                0x10216f7ba065e00d
            ]),
        ]
    );
}

#[test]
fn equal_points_give_no_matrix() {
    let none = |x: &[u64], y: &[u64]| {
        mds_matrix_from_points::<Bn256>(&smalls(x), &smalls(y)).is_none()
    };
    assert!(none(&[1, 1], &[3, 5]));
    assert!(none(&[1, 2], &[5, 5]));
    assert!(none(&[1, 2], &[3, 1]));
    assert!(none(&[1, 2], &[1, 3]));
    assert!(!none(&[1, 2], &[3, 4]));
}

#[test]
fn no_points_give_the_empty_matrix() {
    assert_eq!(mds_matrix_from_points::<Bn256>(&[], &[]), Some(vec![]));
}

#[test]
fn bounded_generation_draws_rows_then_columns() {
    let mut rng = Listed { elements: vec![1, 2, 3, 5], next: 0 };
    let m = generate_mds_matrix_within::<Bn256, Listed>(2, &mut rng, 1);
    let expected = mds_matrix_from_points::<Bn256>(&smalls(&[1, 2]), &smalls(&[3, 5]));
    assert_eq!(m, expected);
    assert_eq!(rng.next, 4);
}

#[test]
fn bounded_generation_draws_again_after_equal_points() {
    let mut rng = Listed {
        elements: vec![7, 7, 1, 2, 1, 2, 9, 1, 1, 2, 3, 5, 8, 8],
        next: 0,
    };
    let m = generate_mds_matrix_within::<Bn256, Listed>(2, &mut rng, 10);
    let expected = mds_matrix_from_points::<Bn256>(&smalls(&[1, 2]), &smalls(&[3, 5]));
    assert_eq!(m, expected);
    assert_eq!(rng.next, 12);
}

#[test]
fn generation_gives_up_after_the_last_attempt() {
    let mut rng = Listed { elements: vec![4; 12], next: 0 };
    assert!(generate_mds_matrix_within::<Bn256, Listed>(2, &mut rng, 3).is_none());
    assert_eq!(rng.next, 12);
    assert!(generate_mds_matrix_within::<Bn256, Listed>(2, &mut rng, 0).is_none());
    assert_eq!(rng.next, 12);
}

#[test]
fn generation_of_no_rows_needs_no_points() {
    let mut rng = Listed { elements: vec![], next: 0 };
    assert_eq!(generate_mds_matrix_within::<Bn256, Listed>(0, &mut rng, 1), Some(vec![]));
}

#[test]
fn generation_draws_until_the_points_differ() {
    let mut rng = Listed {
        elements: vec![7, 7, 1, 2, 1, 2, 9, 1, 1, 2, 3, 5, 8, 8],
        next: 0,
    };
    let m = generate_mds_matrix::<Bn256, Listed>(2, &mut rng);
    let expected = mds_matrix_from_points::<Bn256>(&smalls(&[1, 2]), &smalls(&[3, 5]));
    assert_eq!(Some(m), expected);
    assert_eq!(rng.next, 12);
    assert!(generate_mds_matrix::<Bn256, Listed>(0, &mut rng).is_empty());
    assert_eq!(rng.next, 12);
}

#[test]
fn bounded_generation_goes_on_where_it_stopped() {
    let elements = vec![7, 7, 1, 2, 1, 2, 9, 1, 1, 2, 3, 5];
    let mut rng = Listed { elements: elements.clone(), next: 0 };
    assert!(generate_mds_matrix_within::<Bn256, Listed>(2, &mut rng, 1).is_none());
    assert_eq!(rng.next, 4);
    assert!(generate_mds_matrix_within::<Bn256, Listed>(2, &mut rng, 1).is_none());
    let m = generate_mds_matrix_within::<Bn256, Listed>(2, &mut rng, 1);
    let mut whole = Listed { elements, next: 0 };
    assert_eq!(m, Some(generate_mds_matrix::<Bn256, Listed>(2, &mut whole)));
    assert_eq!(rng.next, whole.next);
}

#[test]
fn generation_from_a_seed() {
    let seed: &[u32] = &[2, 7, 1, 8];
    let m = generate_mds_matrix::<Bn256, ChaChaRng>(3, &mut ChaChaRng::from_seed(seed));
    let within =
        generate_mds_matrix_within::<Bn256, ChaChaRng>(3, &mut ChaChaRng::from_seed(seed), 5);
    assert_eq!(within.as_ref(), Some(&m));
    let mut rng = ChaChaRng::from_seed(seed);
    let points: Vec<Fr> = (0..6).map(|_| rng.gen()).collect();
    for i in 0..3 {
        for j in 0..3 {
            let mut product = points[i];
            product.sub_assign(&points[3 + j]);
            product.mul_assign(&m[3 * i + j]);
            assert_eq!(product, Fr::one());
        }
    }
}

#[test]
fn small_submatrices_have_determinants_that_are_not_zero() {
    let m = mds_matrix_from_points::<Bn256>(&smalls(&[1, 2, 3]), &smalls(&[4, 5, 6])).unwrap();
    for x in m.iter() {
        assert!(!x.is_zero());
    }
    for (i, k) in [(0, 1), (0, 2), (1, 2)] {
        for (j, l) in [(0, 1), (0, 2), (1, 2)] {
            let mut left = m[3 * i + j];
            left.mul_assign(&m[3 * k + l]);
            let mut right = m[3 * i + l];
            right.mul_assign(&m[3 * k + j]);
            assert_ne!(left, right);
        }
    }
}
