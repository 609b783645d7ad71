use lattice_commit::probability::gaussian::tail_bound;
use lattice_commit::{
    CdtCache, Element, Error, GaussianCDT, LWEScalar, Matrix, OxfoiScalar, SevenScalar, Vector,
};
use rand::rngs::StdRng;
use rand::SeedableRng;
use std::collections::HashMap;
use std::sync::Arc;

const TOTAL_SAMPLES: usize = 100_000;

/// Key and weights of the discrete Gaussian of width `theta`: the weight of
/// a displacement `d` is `exp(-d^2 / (2 theta^2))`, on a scale of 2^56.
fn gaussian_weights(theta: f64) -> (u32, Vec<u64>) {
    let theta_key = (theta * 10f64.powi(5)).round() as u32;
    let dist = tail_bound(theta_key);
    assert!(dist >= 1, "theta is too small");
    let scale = 2f64.powi(56);
    let mut weights = Vec::new();
    for disp in -dist..=dist {
        let prob_exp = (disp as f64).powi(2) / (2.0 * theta * theta);
        weights.push((f64::exp(-prob_exp) * scale).round() as u64);
    }
    (theta_key, weights)
}

fn gaussian_cdt(theta: f64) -> GaussianCDT {
    let (theta_key, weights) = gaussian_weights(theta);
    assert!(GaussianCDT::parameters_valid(theta_key, &weights));
    GaussianCDT::new::<OxfoiScalar>(theta_key, &weights)
}

fn draw(cdt: &GaussianCDT, rng: &mut StdRng) -> i128 {
    cdt.sample::<OxfoiScalar>(rng)
        .expect("sampled probability is outside CDT")
        .displacement()
}

#[test]
fn cdt_mean() {
    let rng = &mut StdRng::seed_from_u64(1);

    for i in 10..100 {
        let theta = (i as f64) / 10.;
        let cdt = gaussian_cdt(theta);
        let mut samples = HashMap::<i32, usize>::default();
        let mut sum = 0f64;
        for _ in 0..TOTAL_SAMPLES {
            let disp = draw(&cdt, rng);
            sum += disp as f64;
            *samples.entry(disp as i32).or_default() += 1;
        }
        // check that mean < 3*theta/sqrt(N)
        assert!((sum / TOTAL_SAMPLES as f64).abs() < (3. * theta) / (TOTAL_SAMPLES as f64).sqrt());
    }
}

#[test]
fn cdt_std_dev() {
    let rng = &mut StdRng::seed_from_u64(2);

    for i in 10..100 {
        let theta = (i as f64) / 10.;
        let cdt = gaussian_cdt(theta);
        let mut samples = HashMap::<i32, usize>::default();
        let mut sum = 0f64;
        for _ in 0..TOTAL_SAMPLES {
            let disp = draw(&cdt, rng);
            sum += disp as f64;
            *samples.entry(disp as i32).or_default() += 1;
        }
        let mean = sum / TOTAL_SAMPLES as f64;
        let mut variance = 0f64;
        for (disp, count) in samples {
            variance += count as f64 * (disp as f64 - mean).powi(2);
        }
        let variance = variance / TOTAL_SAMPLES as f64;
        let std_dev = variance.sqrt();
        let percent_diff = ((std_dev - theta) / theta).abs();
        // measured std_dev within 1% of theta
        assert!(percent_diff < 0.01);
    }
}

#[test]
fn cdt_symmetry() {
    let rng = &mut StdRng::seed_from_u64(1);

    for i in 10..100 {
        let theta = (i as f64) / 10.;
        let cdt = gaussian_cdt(theta);
        let mut total_neg = 0f64;
        let mut total_pos = 0f64;
        for _ in 0..TOTAL_SAMPLES {
            let disp = draw(&cdt, rng);
            if disp < 0 {
                total_neg += 1.0;
            } else if disp > 0 {
                total_pos += 1.0;
            }
        }
        // negative and positive counts within 3% diff
        assert!((1.0 - total_neg / total_pos).abs() < 0.03);
    }
}

/// The value that a chi-squared variable of `df` degrees of freedom stays
/// below with probability 0.95, after Wilson and Hilferty.
fn chi_sq_95(df: usize) -> f64 {
    let k = df as f64;
    let t = 2.0 / (9.0 * k);
    k * (1.0 - t + 1.6448536269514722 * t.sqrt()).powi(3)
}

#[test]
fn cdt_chi_squared_fit() {
    let rng = &mut StdRng::seed_from_u64(2);

    for i in 10..100 {
        let theta = (i as f64) / 10.;
        let cdt = gaussian_cdt(theta);
        let mut samples = HashMap::<i32, usize>::default();
        for _ in 0..TOTAL_SAMPLES {
            let disp = draw(&cdt, rng);
            *samples.entry(disp as i32).or_default() += 1;
        }
        let mut chi_sq = 0f64;
        for disp in ((-theta * 10.) as i32)..((theta * 10.) as i32) {
            let count = samples.entry(disp).or_default();
            let expected =
                cdt.prob(disp) as f64 / cdt.normalized_sum as f64 * TOTAL_SAMPLES as f64;
            if expected < 1.0 {
                continue;
            }
            chi_sq += (*count as f64 - expected).powi(2) / expected;
        }
        let df = samples.len() - 1;
        let expected = chi_sq_95(df);
        println!("{} {}", expected, chi_sq);
        assert!(
            chi_sq < expected,
            "{chi_sq} outside of bound 95% {expected}"
        );
    }
}

#[test]
fn cdt_theta_two() {
    let rng = &mut StdRng::seed_from_u64(4);
    let theta = 2.0;
    let cdt = gaussian_cdt(theta);
    let mut sum = 0f64;
    let mut squares = 0f64;
    let mut neg = 0f64;
    let mut pos = 0f64;
    for _ in 0..TOTAL_SAMPLES {
        let disp = draw(&cdt, rng) as f64;
        sum += disp;
        squares += disp * disp;
        if disp < 0.0 {
            neg += 1.0;
        } else if disp > 0.0 {
            pos += 1.0;
        }
    }
    let n = TOTAL_SAMPLES as f64;
    let mean = sum / n;
    let std_dev = (squares / n - mean * mean).sqrt();
    assert!(mean.abs() < 3.0 * theta / n.sqrt());
    assert!(((std_dev - theta) / theta).abs() < 0.01);
    assert!((1.0 - neg / pos).abs() < 0.03);
}

#[test]
fn tail_bound_is_thirteen_widths_rounded_up() {
    assert_eq!(tail_bound(0), 0);
    assert_eq!(tail_bound(1), 1);
    assert_eq!(tail_bound(100_000), 13);
    assert_eq!(tail_bound(200_000), 26);
    assert_eq!(tail_bound(110_000), 15);
    assert_eq!(tail_bound(u32::MAX), 558_346);
}

#[test]
fn table_holds_running_totals() {
    // width key 7000 gives displacements -1 ..= 1
    assert_eq!(tail_bound(7_000), 1);
    let cdt = GaussianCDT::new::<SevenScalar>(7_000, &[3, 5, 2]);
    assert_eq!(cdt.cardinality, 7);
    assert_eq!(cdt.theta_key, 7_000);
    assert_eq!(cdt.displacements, vec![(0, -1), (3, 0), (8, 1)]);
    assert_eq!(cdt.normalized_sum, 10);
    assert_eq!(cdt.prob(-1), 3);
    assert_eq!(cdt.prob(0), 5);
    assert_eq!(cdt.prob(1), 0);
    assert_eq!(cdt.prob(2), 0);
    assert_eq!(cdt.prob(-2), 0);
}

#[test]
fn draws_fall_into_their_buckets() {
    let cdt = GaussianCDT::new::<SevenScalar>(7_000, &[3, 5, 2]);
    for r in 0..3 {
        assert_eq!(cdt.displacement_at(r), Some(-1));
        assert_eq!(SevenScalar::at_displacement(-1).to_u128(), 6);
    }
    for r in 3..8 {
        assert_eq!(cdt.displacement_at(r), Some(0));
        assert_eq!(SevenScalar::at_displacement(0).to_u128(), 0);
    }
    for r in 8..12 {
        assert_eq!(cdt.displacement_at(r), None);

    }
}

#[test]
fn degenerate_parameters_are_told_apart() {
    assert!(GaussianCDT::parameters_valid(7_000, &[3, 5, 2]));
    assert!(GaussianCDT::parameters_valid(7_000, &[0, 1, 0]));
    // no width at all
    assert!(!GaussianCDT::parameters_valid(0, &[1]));
    // not one weight for each displacement
    assert!(!GaussianCDT::parameters_valid(7_000, &[3, 5]));
    assert!(!GaussianCDT::parameters_valid(7_000, &[3, 5, 2, 1, 1]));
    // no mass below the largest displacement
    assert!(!GaussianCDT::parameters_valid(7_000, &[0, 0, 2]));
}

#[test]
fn cache_returns_the_table_it_built() {
    let mut cache = CdtCache::new();
    assert!(cache.get(7, 7_000).is_none());
    let first = cache.get_or_build::<SevenScalar>(7_000, &[3, 5, 2]).clone();
    assert_eq!(first.displacements, vec![(0, -1), (3, 0), (8, 1)]);
    // the second request is served the first table, whatever it would build
    let second = cache.get_or_build::<SevenScalar>(7_000, &[1, 1, 1]).clone();
    assert!(Arc::ptr_eq(&first, &second));
    assert_eq!(second.displacements, first.displacements);
    assert_eq!(second.normalized_sum, first.normalized_sum);
    // another ring, another table
    let other = cache.get_or_build::<OxfoiScalar>(7_000, &[1, 1, 1]).clone();
    assert_eq!(other.cardinality, OxfoiScalar::CARDINALITY);
    assert_eq!(other.displacements, vec![(0, -1), (1, 0), (2, 1)]);
    assert_eq!(cache.get(7, 7_000).unwrap().normalized_sum, 10);
    assert!(cache.contains(OxfoiScalar::CARDINALITY, 7_000));
    assert!(!cache.contains(7, 8_000));
}

#[test]
fn cache_insert_replaces() {
    let mut cache = CdtCache::new();
    cache.insert(GaussianCDT::new::<SevenScalar>(7_000, &[3, 5, 2]));
    cache.insert(GaussianCDT::new::<SevenScalar>(7_000, &[1, 1, 1]));
    assert_eq!(cache.get(7, 7_000).unwrap().normalized_sum, 3);
}

#[test]
fn lwe_accepts_gaussian_noise() {
    let rng = &mut StdRng::seed_from_u64(5);
    let cdt = gaussian_cdt(1.5);
    let bound = tail_bound(cdt.theta_key) as u128;
    let lattice: Matrix<OxfoiScalar> = LWEScalar::lattice_for(2, rng);
    let noise: Vec<OxfoiScalar> = (0..lattice.height())
        .map(|_| cdt.sample::<OxfoiScalar>(rng).unwrap())
        .collect();
    let noise: Vector<OxfoiScalar> = noise.into();
    assert!(noise.iter().any(|e| !e.is_zero()));
    let val: Vector<OxfoiScalar> = Vector::random(2, rng);
    let comm = LWEScalar::commit_with_noise(val.clone(), lattice, &noise);
    assert_eq!(comm.try_open(&val, bound).unwrap(), noise);
    let widest = noise.iter().map(|e| e.zero_dist()).max().unwrap();
    assert!(comm.try_open(&val, widest).is_ok());
    assert_eq!(
        comm.try_open(&val, widest - 1).unwrap_err(),
        Error::ErrorBoundExceeded {
            dist: noise.iter().map(|e| e.zero_dist()).find(|d| *d > widest - 1).unwrap(),
            bound: widest - 1
        }
    );
}

#[test]
fn sample_displacement_stays_in_the_table() {
    let rng = &mut StdRng::seed_from_u64(6);
    let cdt = GaussianCDT::new::<SevenScalar>(7_000, &[3, 5, 0]);
    let mut seen = [0usize; 2];
    for _ in 0..1000 {
        let d = cdt.sample_displacement(rng).unwrap();
        assert!(d == -1 || d == 0);
        seen[(d + 1) as usize] += 1;
    }
    // three parts in eight against five
    assert!(seen[0] > 300 && seen[0] < 450);
    // a table whose last threshold is below its mass can miss every bucket
    let lossy = GaussianCDT::new::<SevenScalar>(7_000, &[1, 0, 1_000_000]);
    let mut missed = false;
    for _ in 0..50 {
        match lossy.sample::<SevenScalar>(rng) {
            Ok(e) => assert_eq!(e.to_u128(), 6),
            Err(failure) => {
                assert_eq!(failure, Error::InvariantViolation);
                missed = true;
            }
        }
    }
    assert!(missed);
}

#[test]
fn well_formed_tables_are_told_apart() {
    let cdt = GaussianCDT::new::<SevenScalar>(7_000, &[3, 5, 2]);
    assert!(cdt.well_formed());
    assert!(gaussian_cdt(2.0).well_formed());
    let mut broken = cdt.clone();
    broken.displacements[1].0 = 9;
    assert!(!broken.well_formed());
    let mut broken = cdt.clone();
    broken.displacements[2].1 = 2;
    assert!(!broken.well_formed());
    let mut broken = cdt.clone();
    broken.normalized_sum = 7;
    assert!(!broken.well_formed());
    let mut broken = cdt.clone();
    broken.displacements.pop();
    assert!(!broken.well_formed());
    let mut broken = cdt.clone();
    broken.theta_key = 0;
    assert!(!broken.well_formed());
    let mut broken = cdt.clone();
    broken.displacements[0].0 = 1;
    assert!(!broken.well_formed());
    let mut empty = GaussianCDT::new::<SevenScalar>(7_000, &[3, 5, 2]);
    empty.displacements = vec![(0, -1), (0, 0), (0, 1)];
    assert!(!empty.well_formed());
}
