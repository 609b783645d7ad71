use lattice_commit::{
    BinaryScalar, ConstraintMatrix, Decompose, Element, Error, Matrix, OxfoiScalar, SevenScalar,
    Vector, R1CS,
};
use rand::rngs::StdRng;
use rand::SeedableRng;

fn seven(values: &[u128]) -> Vector<SevenScalar> {
    let entries: Vec<SevenScalar> = values.iter().map(|v| SevenScalar::from_u128(*v)).collect();
    entries.into()
}

fn numbers<E: Element>(v: &Vector<E>) -> Vec<u128> {
    v.iter().map(|e| e.to_u128()).collect()
}

fn seven_matrix(width: usize, rows: &[&[u128]]) -> Matrix<SevenScalar> {
    Matrix::from_rows(width, rows.iter().map(|row| seven(row)).collect())
}

#[test]
fn binary_field_arithmetic() {
    let zero = BinaryScalar::from(4u8);
    let one = BinaryScalar::from(7u8);
    assert!(zero.is_zero());
    assert!(!one.is_zero());
    assert_eq!(BinaryScalar::CARDINALITY, 2);
    assert_eq!(BinaryScalar::BIT_WIDTH, 1);
    assert_eq!(one.add(one), zero);
    assert_eq!(one.add(zero), one);
    assert_eq!(zero.sub(one), one);
    assert_eq!(one.mul(one), one);
    assert_eq!(one.mul(zero), zero);
    assert_eq!(BinaryScalar::from_u128(9).to_u128(), 1);
    assert_eq!(BinaryScalar::default(), zero);
    let mut x = one;
    x.add_assign(one);
    assert_eq!(x, zero);
    x.sub_assign(one);
    assert_eq!(x, one);
    x.mul_assign(zero);
    assert_eq!(x, zero);
    let rng = &mut StdRng::seed_from_u64(5);
    for _ in 0..20 {
        assert!(BinaryScalar::sample_rand(rng).to_u128() < 2);
    }
    assert_eq!(numbers(&one.as_le_bits_vec(1)), vec![1]);
    assert_eq!(numbers(&one.as_le_bits_vec(5)), vec![1]);
}

#[test]
fn identities_and_distances() {
    assert_eq!(SevenScalar::zero().to_u128(), 0);
    assert_eq!(SevenScalar::one().to_u128(), 1);
    assert_eq!(SevenScalar::negone().to_u128(), 6);
    assert_eq!(OxfoiScalar::negone().to_u128(), 0xffff_ffff_0000_0000);
    assert_eq!(BinaryScalar::negone().to_u128(), 1);
    let dists: Vec<u128> = (0..7).map(|v| SevenScalar::from_u128(v).zero_dist()).collect();
    assert_eq!(dists, vec![0, 1, 2, 3, 3, 2, 1]);
    let disps: Vec<i128> = (0..7).map(|v| SevenScalar::from_u128(v).zero_disp()).collect();
    assert_eq!(disps, vec![0, 1, 2, 3, 3, 2, 1]);
    let signed: Vec<i128> = (0..7).map(|v| SevenScalar::from_u128(v).displacement()).collect();
    assert_eq!(signed, vec![0, 1, 2, 3, -3, -2, -1]);
    assert_eq!(BinaryScalar::from(1u8).displacement(), 1);
    assert_eq!(OxfoiScalar::negone().displacement(), -1);
    assert_eq!(OxfoiScalar::negone().zero_dist(), 1);
}

#[test]
fn elements_at_displacements() {
    assert_eq!(SevenScalar::at_displacement(3).to_u128(), 3);
    assert_eq!(SevenScalar::at_displacement(-3).to_u128(), 4);
    assert_eq!(SevenScalar::at_displacement(-1).to_u128(), 6);
    assert_eq!(SevenScalar::at_displacement(0).to_u128(), 0);
    assert_eq!(SevenScalar::at_displacement(9).to_u128(), 2);
    assert_eq!(SevenScalar::at_displacement(-9).to_u128(), 5);
    assert_eq!(SevenScalar::at_displacement(i32::MIN).to_u128(), 5);
    assert_eq!(OxfoiScalar::at_displacement(-2).to_u128(), 0xffff_ffff_0000_0001 - 2);
    for d in -3..=3 {
        assert_eq!(SevenScalar::at_displacement(d).displacement(), d as i128);
    }
}

#[test]
fn field_arithmetic_wraps() {
    let a = OxfoiScalar::from_u128(0xffff_ffff_0000_0000);
    let b = OxfoiScalar::from_u128(5);
    assert_eq!(a.add(b).to_u128(), 4);
    assert_eq!(b.sub(a).to_u128(), 6);
    assert_eq!(a.mul(a).to_u128(), 1);
    assert_eq!(a.mul(b).to_u128(), 0xffff_ffff_0000_0001 - 5);
    assert_eq!(OxfoiScalar::from_u128(u128::MAX).to_u128(), u128::MAX % 0xffff_ffff_0000_0001);
    assert_eq!(SevenScalar::from_u128(6).add(SevenScalar::from_u128(5)).to_u128(), 4);
    assert_eq!(SevenScalar::from_u128(2).sub(SevenScalar::from_u128(5)).to_u128(), 4);
    assert_eq!(SevenScalar::from_u128(6).mul(SevenScalar::from_u128(6)).to_u128(), 1);
}

#[test]
fn digits_of_an_element() {
    assert_eq!(SevenScalar::bits_vec_len(1), 3);
    assert_eq!(SevenScalar::bits_vec_len(2), 2);
    assert_eq!(SevenScalar::bits_vec_len(3), 1);
    assert_eq!(SevenScalar::bits_vec_len(8), 1);
    assert_eq!(OxfoiScalar::bits_vec_len(8), 8);
    assert_eq!(OxfoiScalar::bits_vec_len(48), 2);
    assert_eq!(OxfoiScalar::bits_vec_len(7), 10);
    let x = SevenScalar::from_u128(6);
    assert_eq!(numbers(&x.as_le_bits_vec(1)), vec![0, 1, 1]);
    assert_eq!(numbers(&x.as_le_bits_vec(2)), vec![2, 1]);
    assert_eq!(numbers(&x.as_le_bits_vec(200)), vec![6]);
    let y = OxfoiScalar::from_u128(0x0102_0304_0506_0708);
    assert_eq!(numbers(&y.as_le_bits_vec(8)), vec![8, 7, 6, 5, 4, 3, 2, 1]);
    assert_eq!(numbers(&y.as_le_bits_vec(48)), vec![0x0304_0506_0708, 0x0102]);
    assert_eq!(numbers(&OxfoiScalar::from_u128(3).as_le_bits_vec(8)), vec![3, 0, 0, 0, 0, 0, 0, 0]);
}

#[test]
fn digits_recompose_by_position() {
    let digits: Vector<OxfoiScalar> =
        vec![OxfoiScalar::from_u128(8), OxfoiScalar::from_u128(7), OxfoiScalar::from_u128(1)].into();
    assert_eq!(OxfoiScalar::from_le_bits_vec(digits.clone(), 8).to_u128(), 8 + 7 * 256 + 65536);
    assert_eq!(OxfoiScalar::from_le_bits_vec(digits.clone(), 4).to_u128(), 8 + 7 * 16 + 256);
    assert_eq!(OxfoiScalar::from_le_bits_vec(digits, 0).to_u128(), 16);
    // weights wrap in the ring: 2^3 = 1 modulo 7
    assert_eq!(SevenScalar::from_le_bits_vec(seven(&[2, 3]), 3).to_u128(), 5);
    // 2^130 = 2 modulo 7
    assert_eq!(SevenScalar::from_le_bits_vec(seven(&[1, 1]), 130).to_u128(), 3);
    assert_eq!(SevenScalar::from_le_bits_vec(Vector::new(0), 3).to_u128(), 0);
}

#[test]
fn digits_round_trip() {
    let rng = &mut StdRng::seed_from_u64(6);
    for bits in [1usize, 2, 3, 5, 7, 8, 13, 30, 31, 32, 48, 63, 64, 65, 127, 128, 129, 1000] {
        for _ in 0..5 {
            let x = OxfoiScalar::sample_rand(rng);
            let digits = x.as_le_bits_vec(bits);
            assert_eq!(digits.len(), OxfoiScalar::bits_vec_len(bits));
            if bits < 64 {
                assert!(digits.iter().all(|d| d.to_u128() < 1u128 << bits));
            }
            assert_eq!(OxfoiScalar::from_le_bits_vec(digits, bits), x);
        }
        for v in 0..7 {
            let x = SevenScalar::from_u128(v);
            assert_eq!(SevenScalar::from_le_bits_vec(x.as_le_bits_vec(bits), bits), x);
        }
    }
}

#[test]
fn vector_entrywise_operations() {
    let u = seven(&[1, 5, 6]);
    let v = seven(&[6, 4, 3]);
    assert_eq!(numbers(&u.clone().add(&v)), vec![0, 2, 2]);
    assert_eq!(numbers(&u.clone().sub(&v)), vec![2, 1, 3]);
    assert_eq!(numbers(&u.clone().mul(&v)), vec![6, 6, 4]);
    assert_eq!(numbers(&u.clone().scale(SevenScalar::from_u128(3))), vec![3, 1, 4]);
    assert_eq!(numbers(&u.clone().add_scalar(SevenScalar::from_u128(3))), vec![4, 1, 2]);
    assert_eq!(u.sum().to_u128(), 5);
    assert_eq!(v.clone().into_sum().to_u128(), 6);
    let mut w = u.clone();
    w.add_assign(&v);
    w.sub_assign(&v);
    assert_eq!(w, u);
    w.mul_assign(&v);
    w.scale_assign(SevenScalar::from_u128(2));
    w.add_scalar_assign(SevenScalar::from_u128(1));
    assert_eq!(numbers(&w), vec![6, 6, 2]);
    assert_eq!(u.clone().add(&v).sub(&v), u);
    assert_eq!(u.clone().scale(SevenScalar::one()), u);
}

#[test]
fn vector_construction_and_access() {
    let zeros: Vector<SevenScalar> = Vector::new(4);
    assert_eq!(zeros.len(), 4);
    assert!(zeros.is_zero());
    assert_eq!(numbers(&zeros), vec![0, 0, 0, 0]);
    let empty: Vector<SevenScalar> = Vector::new(0);
    assert!(empty.is_zero());
    assert_eq!(empty.sum().to_u128(), 0);
    let mut v = seven(&[0, 0, 3]);
    assert!(!v.is_zero());
    assert_eq!(v.index(2).to_u128(), 3);
    v.set(0, SevenScalar::from_u128(5));
    assert_eq!(numbers(&v), vec![5, 0, 3]);
    let single: Vector<SevenScalar> = SevenScalar::from_u128(4).into();
    assert_eq!(numbers(&single), vec![4]);
    assert_eq!(v.clone().into_vec(), vec![
        SevenScalar::from_u128(5),
        SevenScalar::zero(),
        SevenScalar::from_u128(3)
    ]);
    assert_ne!(v, seven(&[5, 0]));
    assert_ne!(v, seven(&[5, 0, 4]));
    let rng = &mut StdRng::seed_from_u64(7);
    let r: Vector<SevenScalar> = Vector::random(50, rng);
    assert_eq!(r.len(), 50);
    assert!(r.iter().all(|e| e.to_u128() < 7));
    assert!(r.iter().any(|e| e.to_u128() != r.index(0).to_u128()));
}

#[test]
fn vector_zero_equidistance() {
    let u = seven(&[1, 5, 3, 0]);
    assert!(u.is_zero_equidistant(&seven(&[6, 2, 4, 0])));
    assert!(u.is_zero_equidistant(&u));
    assert!(!u.is_zero_equidistant(&seven(&[6, 2, 4, 1])));
    assert!(!u.is_zero_equidistant(&seven(&[1, 5, 3])));
}

#[test]
fn matrix_constructors() {
    let z: Matrix<SevenScalar> = Matrix::new(3, 2);
    assert_eq!(z.dimension(), (2, 3));
    assert_eq!(z.width(), 3);
    assert_eq!(z.height(), 2);
    assert!(z.row(0).is_zero() && z.row(1).is_zero());
    assert_eq!(z, Matrix::zero(3, 2));
    let i: Matrix<SevenScalar> = Matrix::identity(3);
    assert_eq!(i, seven_matrix(3, &[&[1, 0, 0], &[0, 1, 0], &[0, 0, 1]]));
    assert_ne!(i, Matrix::zero(3, 3));
    let rng = &mut StdRng::seed_from_u64(8);
    let r: Matrix<SevenScalar> = Matrix::random(4, 5, rng);
    assert_eq!(r.dimension(), (5, 4));
    for k in 0..5 {
        assert_eq!(r.row(k).len(), 4);
        assert!(r.row(k).iter().all(|e| e.to_u128() < 7));
    }
    let joined = i.compose_horizontal(seven_matrix(2, &[&[2, 3], &[4, 5], &[6, 0]]));
    assert_eq!(joined, seven_matrix(5, &[&[1, 0, 0, 2, 3], &[0, 1, 0, 4, 5], &[0, 0, 1, 6, 0]]));
    assert_eq!(joined.clone(), joined);
}

#[test]
fn matrix_entrywise_operations() {
    let a = seven_matrix(2, &[&[1, 2], &[3, 4], &[5, 6]]);
    let b = seven_matrix(2, &[&[6, 6], &[5, 0], &[2, 3]]);
    assert_eq!(a.clone().add(&b), seven_matrix(2, &[&[0, 1], &[1, 4], &[0, 2]]));
    assert_eq!(a.clone().mul(&b), seven_matrix(2, &[&[6, 5], &[1, 0], &[3, 4]]));
    let mut c = a.clone();
    c.add_assign(&b);
    c.mul_assign(&a);
    assert_eq!(c, seven_matrix(2, &[&[0, 2], &[3, 2], &[0, 5]]));
}

#[test]
fn matrix_vector_product() {
    let m = seven_matrix(3, &[&[1, 2, 3], &[4, 5, 6]]);
    let v = seven(&[1, 1, 2]);
    // 1 + 2 + 6 = 9 = 2, 4 + 5 + 12 = 21 = 0
    assert_eq!(numbers(&m.mul_vector(&v)), vec![2, 0]);
    let rng = &mut StdRng::seed_from_u64(9);
    let r: Matrix<OxfoiScalar> = Matrix::random(3, 7, rng);
    let w: Vector<OxfoiScalar> = Vector::random(3, rng);
    assert_eq!(r.mul_vector(&w).len(), 7);
    let i: Matrix<OxfoiScalar> = Matrix::identity(3);
    assert_eq!(i.mul_vector(&w), w);
    let none: Matrix<SevenScalar> = Matrix::new(0, 2);
    assert_eq!(numbers(&none.mul_vector(&Vector::new(0))), vec![0, 0]);
}

#[test]
fn matrix_vector_product_is_linear() {
    let rng = &mut StdRng::seed_from_u64(10);
    let m: Matrix<OxfoiScalar> = Matrix::random(4, 6, rng);
    let a: Vector<OxfoiScalar> = Vector::random(4, rng);
    let b: Vector<OxfoiScalar> = Vector::random(4, rng);
    let s = OxfoiScalar::sample_rand(rng);
    assert_eq!(m.mul_vector(&a.clone().add(&b)), m.mul_vector(&a).add(&m.mul_vector(&b)));
    assert_eq!(m.mul_vector(&a.clone().scale(s)), m.mul_vector(&a).scale(s));
}

#[test]
fn r1cs_evaluation() {
    let a = seven_matrix(2, &[&[1, 0], &[0, 1]]);
    let b = seven_matrix(2, &[&[1, 1], &[2, 0]]);
    let c = seven_matrix(2, &[&[0, 1], &[3, 3]]);
    let system = R1CS::new(a, b, c);
    assert_eq!(system.dimension(), (2, 2));
    // A w = (3, 5), B w = (1, 6), C w = (5, 3): (3, 2) - (5, 3) = (5, 6)
    assert_eq!(numbers(&system.eval(&seven(&[3, 5])).unwrap()), vec![5, 6]);
    assert_eq!(system.assert_consistency(), Ok(()));
    let zero: R1CS<SevenScalar> = R1CS::identity(3, 2);
    assert_eq!(zero.dimension(), (2, 3));
    assert!(zero.eval(&seven(&[1, 2, 3])).unwrap().is_zero());
}

#[test]
fn r1cs_dimension_mismatch() {
    let system: R1CS<SevenScalar> = R1CS::new(Matrix::new(2, 2), Matrix::new(2, 3), Matrix::new(2, 2));
    let failure =
        Error::DimensionMismatch { matrix: ConstraintMatrix::B, expected: (2, 2), got: (3, 2) };
    assert_eq!(system.assert_consistency(), Err(failure));
    assert_eq!(system.eval(&seven(&[1, 1])), Err(failure));
    let system: R1CS<SevenScalar> = R1CS::new(Matrix::new(2, 2), Matrix::new(2, 2), Matrix::new(1, 2));
    assert_eq!(
        system.eval(&seven(&[1, 1])),
        Err(Error::DimensionMismatch {
            matrix: ConstraintMatrix::C,
            expected: (2, 2),
            got: (2, 1)
        })
    );
}

#[test]
fn matrix_product_with_a_shorter_vector() {
    let m = seven_matrix(3, &[&[1, 2, 3], &[4, 5, 6]]);
    // the first two columns only: 1 + 2 = 3, 4 + 5 = 9 = 2
    assert_eq!(numbers(&m.mul_vector_leading(&seven(&[1, 1]))), vec![3, 2]);
    assert_eq!(numbers(&m.mul_vector_leading(&seven(&[]))), vec![0, 0]);
    // as long as the matrix is wide: the product
    let v = seven(&[1, 1, 2]);
    assert_eq!(m.mul_vector_leading(&v), m.mul_vector(&v));
    // longer: the entries behind the last column are not read
    assert_eq!(m.mul_vector_leading(&seven(&[1, 1, 2, 5])), m.mul_vector(&v));
}
