use lattice_commit::{
    BDLOPScalar, BinaryScalar, Decompose, Element, Error, LWEScalar, Matrix, OxfoiScalar,
    SISScalar, SevenScalar, Vector,
};
use rand::rngs::StdRng;
use rand::SeedableRng;

const PART_BITS: usize = 8;

fn fresh_rng() -> StdRng {
    StdRng::from_rng(&mut rand::rng())
}

#[test]
fn bdlop_commit_var_dimension() {
    let rng = &mut fresh_rng();
    // just make sure our dimensions match in matrix/vector ops
    for i in 1..10 {
        let lattice = BDLOPScalar::<OxfoiScalar>::lattice_for(i, rng);
        let _ = BDLOPScalar::<OxfoiScalar>::commit(Vector::random(i, rng), lattice, rng);
    }
}

#[test]
fn lwe_scalar_should_be_additively_homomorphic() {
    let rng = &mut fresh_rng();

    let lattice: Matrix<OxfoiScalar> = LWEScalar::lattice_for(1, rng);

    let a = OxfoiScalar::sample_rand(rng);
    let b = OxfoiScalar::sample_rand(rng);
    let c = b.add(a);

    let comm_a = LWEScalar::commit(a.into(), lattice.clone(), rng);
    let comm_b = LWEScalar::commit(b.into(), lattice.clone(), rng);
    let comm_c = LWEScalar::commit(c.into(), lattice, rng);

    let e1 = comm_c.try_open(&c.into(), 1).unwrap();

    let comm_c_homomorphic = comm_a.add(&comm_b);
    let e2 = comm_c_homomorphic.try_open(&c.into(), 2).unwrap();

    let comm_zero = comm_c_homomorphic.sub(&comm_c);
    let e_out = comm_zero.try_open(&Vector::new(1), 3).unwrap();

    // check that the error vectors match after homomorphic operations
    assert!(e1.sub(&e2).is_zero_equidistant(&e_out));
}

#[test]
fn sis_scalar_should_be_additively_homomorphic() {
    let rng = &mut fresh_rng();

    let a = SevenScalar::sample_rand(rng);
    let b = SevenScalar::sample_rand(rng);
    let c = a.add(b);

    let comm_a = SISScalar::commit(a.as_le_bits_vec(PART_BITS), None, rng);
    let lattice = comm_a.lattice().clone();
    let comm_b = SISScalar::commit(b.as_le_bits_vec(PART_BITS), Some(lattice.clone()), rng);
    let comm_c = SISScalar::commit(c.as_le_bits_vec(PART_BITS), Some(lattice.clone()), rng);

    assert_eq!(comm_c.commitment, comm_a.add(&comm_b).commitment);
}

#[test]
fn should_compute_w3() {
    let rng = &mut fresh_rng();

    let r = OxfoiScalar::sample_rand(rng);

    let a = OxfoiScalar::sample_rand(rng).as_le_bits_vec(PART_BITS);
    let b = OxfoiScalar::sample_rand(rng).as_le_bits_vec(PART_BITS);
    let c = b.clone().scale(r).add(&a);

    let comm_a = SISScalar::commit(a.clone(), None, rng);
    let lattice = comm_a.lattice().clone();
    let comm_b = SISScalar::commit(b.clone(), Some(lattice.clone()), rng);
    let comm_c = SISScalar::commit(c.clone(), Some(lattice.clone()), rng);

    assert_eq!(comm_c.commitment, comm_a.add(&comm_b.scale(r)).commitment);

    let a = OxfoiScalar::from_le_bits_vec(a, PART_BITS);
    let b = OxfoiScalar::from_le_bits_vec(b, PART_BITS);
    let c = OxfoiScalar::from_le_bits_vec(c, PART_BITS);

    assert_eq!(c, a.add(b.mul(r)));
}

#[test]
fn lwe_sum_fails_to_open_without_room_for_noise() {
    let rng = &mut StdRng::seed_from_u64(11);
    let lattice: Matrix<OxfoiScalar> = LWEScalar::lattice_for(2, rng);
    let a: Vector<OxfoiScalar> = Vector::random(2, rng);
    let b: Vector<OxfoiScalar> = Vector::random(2, rng);
    let sum = a.clone().add(&b);
    let comm_a = LWEScalar::commit(a, lattice.clone(), rng);
    let comm_b = LWEScalar::commit(b, lattice, rng);
    let both = comm_a.add(&comm_b);
    assert!(both.try_open(&sum, 2).is_ok());
    match both.try_open(&sum, 0) {
        Err(Error::ErrorBoundExceeded { dist, bound }) => {
            assert!(dist == 1 || dist == 2);
            assert_eq!(bound, 0);
        }
        other => panic!("opened without room for noise: {:?}", other),
    }
}

#[test]
fn lwe_does_not_open_to_another_value() {
    let rng = &mut StdRng::seed_from_u64(12);
    let lattice: Matrix<OxfoiScalar> = LWEScalar::lattice_for(1, rng);
    let a = OxfoiScalar::from_u128(5);
    let other = OxfoiScalar::from_u128(6);
    let comm = LWEScalar::commit(a.into(), lattice, rng);
    assert!(comm.try_open(&a.into(), 1).is_ok());
    assert!(matches!(
        comm.try_open(&other.into(), 1),
        Err(Error::ErrorBoundExceeded { bound: 1, .. })
    ));
}

#[test]
fn lwe_commit_with_noise_recovers_the_noise() {
    let rng = &mut StdRng::seed_from_u64(13);
    let lattice: Matrix<SevenScalar> = LWEScalar::lattice_for(2, rng);
    assert_eq!(lattice.dimension(), (6, 2));
    let val: Vector<SevenScalar> = Vector::random(2, rng);
    let mut noise: Vector<SevenScalar> = Vector::new(6);
    noise.set(0, SevenScalar::from_u128(1));
    noise.set(3, SevenScalar::from_u128(6));
    noise.set(5, SevenScalar::from_u128(3));
    let comm = LWEScalar::commit_with_noise(val.clone(), lattice, &noise);
    assert_eq!(comm.try_open(&val, 3).unwrap(), noise);
    assert_eq!(
        comm.try_open(&val, 2),
        Err(Error::ErrorBoundExceeded { dist: 3, bound: 2 })
    );
}

#[test]
fn bdlop_opens_to_the_message() {
    let rng = &mut StdRng::seed_from_u64(21);
    let lattice = BDLOPScalar::<OxfoiScalar>::lattice_for(3, rng);
    let val: Vector<OxfoiScalar> = Vector::random(3, rng);
    let ((r_1, r_2), comm) = BDLOPScalar::commit(val.clone(), lattice, rng);
    assert_eq!(comm.try_open((&r_1, &r_2)).unwrap(), val);
}

#[test]
fn bdlop_rejects_a_tampered_secret() {
    let rng = &mut StdRng::seed_from_u64(22);
    let lattice = BDLOPScalar::<OxfoiScalar>::lattice_for(2, rng);
    let val: Vector<OxfoiScalar> = Vector::random(2, rng);
    let ((mut r_1, r_2), comm) = BDLOPScalar::commit(val, lattice, rng);
    let tampered = r_1.index(0).add(OxfoiScalar::one());
    r_1.set(0, tampered);
    assert_eq!(comm.try_open((&r_1, &r_2)), Err(Error::CommitmentOpenFailure));
}

#[test]
fn bdlop_zero_commitment_ignores_the_message() {
    let rng = &mut StdRng::seed_from_u64(23);
    let lattice = BDLOPScalar::<SevenScalar>::lattice_for(2, rng);
    let r_1: Vector<SevenScalar> = Vector::random(lattice.0.width(), rng);
    let r_2: Vector<SevenScalar> = Vector::random(2, rng);
    let other_r_2: Vector<SevenScalar> = Vector::random(2, rng);
    let first = BDLOPScalar::commit_with_randomness(
        Vector::random(2, rng),
        (lattice.0.clone(), lattice.1.clone()),
        &r_1,
        &r_2,
    );
    let second =
        BDLOPScalar::commit_with_randomness(Vector::random(2, rng), lattice, &r_1, &other_r_2);
    assert_eq!(first.c_1(), second.c_1());
}

#[test]
fn bdlop_lattice_shape() {
    let rng = &mut StdRng::seed_from_u64(24);
    assert_eq!(BDLOPScalar::<SevenScalar>::dimension(2), (4, 8));
    let (a_1, a_2) = BDLOPScalar::<SevenScalar>::lattice_for(2, rng);
    assert_eq!(a_1.dimension(), (4, 8));
    assert_eq!(a_2.dimension(), (2, 8));
    for i in 0..4 {
        for j in 0..4 {
            assert_eq!(a_1.row(i).index(j).to_u128(), if i == j { 1 } else { 0 });
        }
    }
    for i in 0..2 {
        for j in 0..4 {
            assert_eq!(a_2.row(i).index(j).to_u128(), 0);
        }
        for j in 0..2 {
            assert_eq!(a_2.row(i).index(4 + j).to_u128(), if i == j { 1 } else { 0 });
        }
    }
}

#[test]
fn sis_commitment_is_lattice_times_value() {
    let rng = &mut StdRng::seed_from_u64(31);
    let val: Vector<SevenScalar> = vec![SevenScalar::from_u128(2), SevenScalar::from_u128(5)].into();
    let comm = SISScalar::commit(val.clone(), None, rng);
    assert_eq!(comm.lattice().dimension(), (6, 2));
    assert_eq!(comm.secret(), &val);
    for i in 0..6 {
        let row = comm.lattice().row(i);
        let expected = (row.index(0).to_u128() * 2 + row.index(1).to_u128() * 5) % 7;
        assert_eq!(comm.commitment.index(i).to_u128(), expected);
    }
}

fn ones(len: usize) -> Vector<OxfoiScalar> {
    Vector::new(len).add_scalar(OxfoiScalar::one())
}

#[test]
fn lwe_noise_grows_with_each_term() {
    let rng = &mut StdRng::seed_from_u64(14);
    let lattice: Matrix<OxfoiScalar> = LWEScalar::lattice_for(1, rng);
    let values: Vec<Vector<OxfoiScalar>> = (0..3).map(|_| Vector::random(1, rng)).collect();
    let mut total = LWEScalar::commit_with_noise(values[0].clone(), lattice.clone(), &ones(64));
    let mut sum = values[0].clone();
    for val in &values[1..] {
        total.add_assign(&LWEScalar::commit_with_noise(val.clone(), lattice.clone(), &ones(64)));
        sum.add_assign(val);
    }
    assert_eq!(total.try_open(&sum, 3).unwrap(), ones(64).scale(OxfoiScalar::from_u128(3)));
    assert_eq!(
        total.try_open(&sum, 2),
        Err(Error::ErrorBoundExceeded { dist: 3, bound: 2 })
    );
}

#[test]
fn lwe_noise_grows_with_the_scalar() {
    let rng = &mut StdRng::seed_from_u64(15);
    let lattice: Matrix<OxfoiScalar> = LWEScalar::lattice_for(2, rng);
    let val: Vector<OxfoiScalar> = Vector::random(2, rng);
    let comm = LWEScalar::commit_with_noise(val.clone(), lattice, &ones(128));
    let three = OxfoiScalar::from_u128(3);
    let tripled = comm.clone().scale(three);
    assert!(tripled.try_open(&val.clone().scale(three), 3).is_ok());
    assert_eq!(
        tripled.try_open(&val.clone().scale(three), 2),
        Err(Error::ErrorBoundExceeded { dist: 3, bound: 2 })
    );
    let flipped = comm.scale(OxfoiScalar::negone());
    assert!(flipped.try_open(&val.scale(OxfoiScalar::negone()), 1).is_ok());
}

#[test]
fn lwe_entrywise_product_and_difference() {
    let rng = &mut StdRng::seed_from_u64(16);
    let lattice: Matrix<SevenScalar> = LWEScalar::lattice_for(1, rng);
    let val: Vector<SevenScalar> = Vector::random(1, rng);
    let comm = LWEScalar::commit(val.clone(), lattice.clone(), rng);
    let twos: Vector<SevenScalar> = Vector::new(3).add_scalar(SevenScalar::from_u128(2));
    let doubled = comm.clone().mul(&twos);
    assert_eq!(doubled.commitment(), &comm.commitment().clone().mul(&twos));
    assert_eq!(doubled.lattice(), &lattice);
    let nothing = comm.clone().sub(&comm);
    assert!(nothing.commitment().is_zero());
    let mut again = comm.clone();
    again.sub_assign(&comm);
    again.scale_assign(SevenScalar::from_u128(5));
    again.mul_assign(&twos);
    assert!(again.commitment().is_zero());
}

#[test]
fn sis_scaling_and_entrywise_product() {
    let rng = &mut StdRng::seed_from_u64(32);
    let a: Vector<SevenScalar> = Vector::random(2, rng);
    let comm = SISScalar::commit(a.clone(), None, rng);
    let lattice = comm.lattice().clone();
    let s = SevenScalar::from_u128(3);
    let scaled = SISScalar::commit(a.clone().scale(s), Some(lattice), rng);
    assert_eq!(comm.clone().scale(s).commitment, scaled.commitment);
    let twos: Vector<SevenScalar> = Vector::new(6).add_scalar(SevenScalar::from_u128(2));
    let mut product = comm.clone();
    product.mul_assign(&twos);
    assert_eq!(product.commitment, comm.clone().mul(&twos).commitment);
    assert_eq!(product.commitment, comm.commitment.clone().scale(SevenScalar::from_u128(2)));
    let mut both = comm.clone();
    both.add_assign(&comm);
    both.scale_assign(SevenScalar::from_u128(4));
    assert_eq!(both.commitment, comm.commitment().clone());
}

#[test]
fn bdlop_zero_commitment_does_not_follow_the_message() {
    let rng = &mut StdRng::seed_from_u64(25);
    let lattice = BDLOPScalar::<SevenScalar>::lattice_for(1, rng);
    let rounds = 7_000;
    // how often each value shows in the first entry of c_1, by message
    let mut seen = [[0usize; 7]; 2];
    for round in 0..rounds {
        let which = round % 2;
        let val: Vector<SevenScalar> = SevenScalar::from_u128(3 * which as u128).into();
        let (_, comm) =
            BDLOPScalar::commit(val, (lattice.0.clone(), lattice.1.clone()), rng);
        seen[which][comm.c_1().index(0).to_u128() as usize] += 1;
    }
    for value in 0..7 {
        // 500 of 3500 expected for either message
        for which in 0..2 {
            assert!(seen[which][value] > 400 && seen[which][value] < 600);
        }
    }
}

#[test]
fn bdlop_secret_lengths() {
    let rng = &mut StdRng::seed_from_u64(26);
    for m in 1..5 {
        let lattice = BDLOPScalar::<SevenScalar>::lattice_for(m, rng);
        let width = lattice.0.width();
        assert_eq!(width, 3 * m - m + 2 * m);
        let val: Vector<SevenScalar> = Vector::random(m, rng);
        let ((r_1, r_2), comm) = BDLOPScalar::commit(val, lattice, rng);
        assert_eq!(r_1.len(), width);
        assert_eq!(r_2.len(), m);
        assert_eq!(comm.c_1().len(), 2 * m);
        assert_eq!(comm.c_2().len(), m);
    }
}

#[test]
fn bdlop_second_commitment_reads_the_leading_columns() {
    let rng = &mut StdRng::seed_from_u64(27);
    // two bits or more: the leading columns of the second lattice are zeros
    let lattice = BDLOPScalar::<OxfoiScalar>::lattice_for(3, rng);
    let val: Vector<OxfoiScalar> = Vector::random(3, rng);
    let (_, comm) = BDLOPScalar::commit(val.clone(), lattice, rng);
    assert_eq!(comm.c_2(), &val);
    // one bit: the first lattice is empty and the leading columns of the
    // second are the identity
    let lattice = BDLOPScalar::<BinaryScalar>::lattice_for(3, rng);
    assert_eq!(lattice.0.dimension(), (0, 6));
    let val: Vector<BinaryScalar> = Vector::random(3, rng);
    let ((r_1, r_2), comm) = BDLOPScalar::commit(val.clone(), lattice, rng);
    assert_eq!(comm.c_2(), &r_2.clone().add(&val));
    assert_eq!(comm.try_open((&r_1, &r_2)).unwrap(), val);
}

#[test]
fn sis_commit_over_a_given_lattice_draws_nothing() {
    let mut rng = StdRng::seed_from_u64(33);
    let lattice: Matrix<SevenScalar> = Matrix::random(2, 6, &mut rng);
    let val: Vector<SevenScalar> = Vector::random(2, &mut rng);
    let before = rng.clone();
    let first = SISScalar::commit(val.clone(), Some(lattice.clone()), &mut rng);
    assert_eq!(rng, before);
    let second = SISScalar::commit(val.clone(), Some(lattice.clone()), &mut rng);
    assert_eq!(first.commitment, second.commitment);
    assert_eq!(first.lattice(), &lattice);
    let drawn = SISScalar::commit(val, None, &mut rng);
    assert_ne!(rng, before);
    assert_eq!(drawn.lattice().dimension(), (6, 2));
}
