use cpa::correlation::Correlation;
use cpa::leakage::FnModel;
use cpa::tally::{widen, widen_patch};

fn c(num: u128, var_x: u128, var_y: u128) -> Correlation {
    Correlation { num, var_x, var_y }
}

fn scaled(metadata: &[i32], guess: usize) -> i16 {
    (metadata[0] as i16) * (guess as i16)
}

#[test]
fn the_stages_of_a_single_update_add_to_the_sums() {
    let mut cpa = cpa::cpa_single::Cpa::new(1, 2, FnModel::new(scaled)).unwrap();
    cpa.update(&[2], &[3]).unwrap();
    // A second trace goes into the sums without being counted: sample 5 with
    // hypotheses 0 and 4.
    let trace = widen(&[5]);
    cpa.update_values(&[4]);
    cpa.update_arrays(&trace);
    cpa.update_cov(&trace);
    assert_eq!(cpa.traces(), 1);
    cpa.finalize().unwrap();
    // n = 1, Σx = 7, Σx² = 29, Σy = 7, Σy² = 25, Σxy = 26.
    let corr = cpa.pass_corr_array();
    assert_eq!(corr[1][0], c(23, 0, 0));
    assert_eq!(corr[0][0], c(0, 0, 0));
}

#[test]
fn calculation_takes_the_maxima_of_the_matrix() {
    let mut cpa = cpa::cpa_single::Cpa::new(2, 2, FnModel::new(scaled)).unwrap();
    cpa.success_traces(3);
    cpa.update(&[1, 9], &[1]).unwrap();
    cpa.update(&[2, 7], &[2]).unwrap();
    cpa.update(&[4, 8], &[4]).unwrap();
    cpa.finalize().unwrap();
    let guess = cpa.pass_guess();
    cpa.calculation();
    assert_eq!(cpa.pass_guess(), guess);
    cpa.update_success();
    let corr = cpa.pass_corr_array();
    let rank = cpa.pass_rank();
    let best = if corr[1][1].is_above(&corr[1][0]) { corr[1][1] } else { corr[1][0] };
    assert_eq!(rank[1], vec![best]);
}

#[test]
fn the_stages_of_a_patch_update_add_to_the_sums() {
    let mut cpa = cpa::cpa_normal::Cpa::new(1, 2, 2, FnModel::new(scaled)).unwrap();
    cpa.update(&[vec![2], vec![4]], &[vec![3], vec![1]]).unwrap();
    // Sums so far: Σx = 6, Σx² = 20, Σy = 4, Σy² = 10, Σxy = 10, for guess 1.
    let trace = widen_patch(&[vec![5], vec![1]], 2, 1);
    cpa.update_values(&[vec![4], vec![2]], &trace, 2);
    cpa.update_key_leakages(&trace, 2);
    assert_eq!(cpa.traces(), 2);
    cpa.finalize().unwrap();
    // Now Σx = 12, Σx² = 46, Σy = 10, Σy² = 30, Σxy = 32, with n = 2.
    let corr = cpa.pass_corr_array();
    assert_eq!(corr[1][0], c((12 * 10 - 2 * 32) as u128, 0, 0));
}

#[test]
fn a_patch_stage_may_leave_guesses_out() {
    let mut cpa = cpa::cpa_normal::Cpa::new(1, 2, 3, FnModel::new(scaled)).unwrap();
    cpa.update(&[vec![2], vec![4]], &[vec![3], vec![1]]).unwrap();
    // Hypotheses so far: guess 1: 3, 1; guess 2: 6, 2.
    let trace = widen_patch(&[vec![5], vec![1]], 2, 1);
    // Only guesses 0 and 1 are evaluated anew; guess 2 keeps 6 and 2.
    cpa.update_values(&[vec![4], vec![2]], &trace, 2);
    // Only the sums of guesses 0 and 1 take the hypotheses in.
    cpa.update_key_leakages(&trace, 2);
    cpa.finalize().unwrap();
    let corr = cpa.pass_corr_array();
    // Guess 2: Σy = 8, Σy² = 40 as before; Σxy = 20 + (6·5 + 2·1) = 52;
    // Σx = 12, Σx² = 46, n = 2.
    assert_eq!(corr[2][0], c((2 * 52 - 12 * 8) as u128, 0, (2 * 40 - 64) as u128));
    // Guess 1: Σy = 4 + 6 = 10, Σy² = 10 + 20 = 30, Σxy = 10 + 22 = 32.
    assert_eq!(corr[1][0], c((12 * 10 - 2 * 32) as u128, 0, 0));
}

#[test]
fn the_stages_of_a_partitioned_update_add_to_the_sums() {
    let mut cpa = cpa::cpa::Cpa::new(1, 3, 3, 0, FnModel::new(scaled)).unwrap();
    cpa.update(&[2], &[1]).unwrap();
    cpa.update(&[6], &[2]).unwrap();
    let trace = widen(&[5]);
    // Hypotheses of value 2 for guesses 0 and 1 only; guess 2 keeps 4.
    cpa.gen_values(&[0, 2], 2, 1);
    cpa.go(&trace, &[2, 0], 2);
    assert_eq!(cpa.traces(), 2);
    let corr = cpa.finalize().unwrap();
    // Buckets: value 1 holds 2, value 2 holds 6 + 5 = 11.
    // Guess 1: Σxy = 2·1 + 11·2 = 24, Σy = 1 + 2 + 2 = 5, Σy² = 1 + 4 + 4 = 9;
    // Σx = 13, Σx² = 4 + 36 + 25 = 65, n = 2.
    assert_eq!(corr[1][0], c((13 * 5 - 2 * 24) as u128, 0, 0));
    // Guess 2: Σxy = 2·2 + 11·4 = 48, Σy = 2 + 4 = 6, Σy² = 4 + 16 = 20.
    assert_eq!(corr[2][0], c((2 * 48 - 13 * 6) as u128, 0, (2 * 20 - 36) as u128));
}

#[test]
fn find_guess_recomputes_the_maxima_and_nothing_else() {
    let mut cpa = cpa::cpa::Cpa::new(2, 3, 3, 0, FnModel::new(scaled)).unwrap();
    cpa.update(&[2, 9], &[1]).unwrap();
    cpa.update(&[6, 1], &[2]).unwrap();
    cpa.update(&[3, 3], &[0]).unwrap();
    let corr = cpa.finalize().unwrap();
    let guess = cpa.pass_guess();
    cpa.find_guess();
    assert_eq!(cpa.pass_guess(), guess);
    assert!(cpa.pass_rank()[1].is_empty());
    assert_eq!(cpa.finalize().unwrap(), corr);
    assert_eq!(cpa.traces(), 3);
}
