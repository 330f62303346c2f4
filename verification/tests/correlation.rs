use cpa::error::CpaError;
use cpa::correlation::{arg_max, guess, Correlation};
use cpa::leakage::FnModel;

fn c(num: u128, var_x: u128, var_y: u128) -> Correlation {
    Correlation { num, var_x, var_y }
}

#[test]
fn from_sums_is_the_formula() {
    // n = 4, Σxy = 30, Σx = 10, Σx² = 30, Σy = 8, Σy² = 20
    let r = Correlation::from_sums(4, 30, 10, 30, 8, 20);
    assert_eq!(r, c(4 * 30 - 10 * 8, 4 * 30 - 100, 4 * 20 - 64));
}

#[test]
fn from_sums_takes_the_magnitude_of_the_covariance() {
    let r = Correlation::from_sums(2, -5, 3, 5, 1, 1);
    // 2·(-5) - 3·1 = -13; 2·5 - 9 = 1; 2·1 - 1 = 1
    assert_eq!(r, c(13, 1, 1));
}

#[test]
fn from_sums_without_variance_is_undefined() {
    let flat_x = Correlation::from_sums(3, 12, 6, 12, 5, 11);
    assert_eq!(flat_x.var_x, 0);
    assert!(!flat_x.is_defined());
    let flat_y = Correlation::from_sums(3, 12, 5, 11, 6, 12);
    assert_eq!(flat_y.var_y, 0);
    assert!(!flat_y.is_defined());
    assert!(!Correlation::from_sums(0, 0, 0, 0, 0, 0).is_defined());
}

#[test]
fn from_sums_at_the_limits_of_its_arguments() {
    let r = Correlation::from_sums(u32::MAX, i64::MIN, i64::MAX, i64::MAX, i64::MIN, i64::MAX);
    let n = u32::MAX as i128;
    let cov = n * (i64::MIN as i128) - (i64::MAX as i128) * (i64::MIN as i128);
    assert_eq!(r.num, cov.unsigned_abs());
    assert_eq!(r.var_x, 0);
    assert_eq!(r.var_y, 0);
}

#[test]
fn checked_reports_what_does_not_exist() {
    assert_eq!(c(3, 4, 4).checked(), Ok(c(3, 4, 4)));
    assert_eq!(c(0, 4, 4).checked(), Ok(c(0, 4, 4)));
    assert_eq!(c(3, 0, 4).checked(), Err(CpaError::DegenerateStatistics));
    assert_eq!(c(3, 4, 0).checked(), Err(CpaError::DegenerateStatistics));
    assert_eq!(Correlation::undefined().checked(), Err(CpaError::DegenerateStatistics));
}

#[test]
fn undefined_is_neither_above_nor_below() {
    let u = Correlation::undefined();
    let d = c(1, 4, 4);
    assert_eq!(u, c(0, 0, 0));
    assert!(!u.is_defined());
    assert!(!u.is_above(&d));
    assert!(!d.is_above(&u));
    assert!(!u.is_above(&u));
}

#[test]
fn is_above_compares_the_quotients() {
    // 3/sqrt(16) = 0.75 against 2/sqrt(9) = 0.666…
    assert!(c(3, 4, 4).is_above(&c(2, 3, 3)));
    assert!(!c(2, 3, 3).is_above(&c(3, 4, 4)));
    // 1/sqrt(4) = 2/sqrt(16): equal, neither is above.
    assert!(!c(1, 2, 2).is_above(&c(2, 4, 4)));
    assert!(!c(2, 4, 4).is_above(&c(1, 2, 2)));
    // Zero is below everything positive.
    assert!(c(1, 1000, 1000).is_above(&c(0, 1, 1)));
}

#[test]
fn is_above_is_exact_beyond_machine_integers() {
    // The two quotients differ by one part in 2^126.
    let big = 1u128 << 63;
    let a = c(big + 1, big, big);
    let b = c(big, big, big);
    assert!(a.is_above(&b));
    assert!(!b.is_above(&a));
    let x = c(u128::MAX, u128::MAX, u128::MAX);
    let y = c(u128::MAX - 1, u128::MAX, u128::MAX);
    assert!(x.is_above(&y));
    assert!(!y.is_above(&x));
    assert!(!x.is_above(&x));
}

#[test]
fn arg_max_takes_the_first_of_the_greatest() {
    let row = vec![c(1, 4, 4), c(0, 0, 3), c(3, 4, 4), c(6, 8, 8), c(2, 4, 4)];
    assert_eq!(arg_max(&row), Some(2));
    assert_eq!(arg_max(&vec![c(5, 0, 1), c(7, 1, 0)]), None);
    assert_eq!(arg_max(&Vec::new()), None);
    assert_eq!(arg_max(&vec![c(0, 1, 1)]), Some(0));
}

#[test]
fn guess_is_the_first_positive_maximum_or_zero() {
    assert_eq!(guess(&vec![c(1, 4, 4), c(3, 4, 4), c(3, 4, 4)]), 1);
    assert_eq!(guess(&vec![c(0, 0, 0), c(0, 4, 4), c(0, 0, 0)]), 0);
    assert_eq!(guess(&vec![c(0, 0, 0), c(0, 0, 0)]), 0);
    assert_eq!(guess(&vec![c(0, 4, 4), c(0, 0, 0), c(1, 100, 100)]), 2);
    assert_eq!(guess(&Vec::new()), 0);
}

fn doubled(metadata: &[i32], guess: usize) -> i16 {
    (metadata[0] as i16) * (guess as i16 + 1)
}

#[test]
fn a_new_accumulator_holds_undefined_correlations_and_an_empty_rank_curve() {
    let cpa = cpa::cpa_single::Cpa::new(3, 2, FnModel::new(doubled)).unwrap();
    assert_eq!(cpa.pass_corr_array(), vec![vec![Correlation::undefined(); 3]; 2]);
    assert_eq!(cpa.pass_rank(), vec![Vec::<Correlation>::new(), Vec::new()]);
}

#[test]
fn the_rank_curve_grows_by_the_maxima_of_the_rows() {
    let mut cpa = cpa::cpa_single::Cpa::new(2, 2, FnModel::new(doubled)).unwrap();
    cpa.success_traces(2);
    let traces: [[i16; 2]; 4] = [[1, 9], [2, 7], [4, 8], [3, 1]];
    let metadata: [[i32; 1]; 4] = [[1], [2], [5], [3]];
    let mut columns = 0;
    for i in 0..4 {
        cpa.update(&traces[i], &metadata[i]).unwrap();
        cpa.update_success();
        if (i + 1) % 2 == 0 {
            columns += 1;
            let corr = cpa.pass_corr_array();
            let rank = cpa.pass_rank();
            assert_eq!(rank.len(), 2);
            for g in 0..2 {
                assert_eq!(rank[g].len(), columns);
                let best = match arg_max(&corr[g]) {
                    Some(k) => corr[g][k],
                    None => Correlation::undefined(),
                };
                assert_eq!(rank[g][columns - 1], best);
            }
        }
    }
    let rank = cpa.pass_rank();
    assert_eq!(rank[0].len(), 2);
    assert_ne!(rank[0][0], rank[0][1]);
}
