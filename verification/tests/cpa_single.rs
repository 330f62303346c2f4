use cpa::correlation::Correlation;
use cpa::cpa_single::Cpa;
use cpa::error::CpaError;
use cpa::leakage::{FnModel, TableModel};

fn magnitude(c: &Correlation) -> f64 {
    c.num as f64 / (c.var_x as f64 * c.var_y as f64).sqrt()
}

fn scaled(metadata: &[i32], guess: usize) -> i16 {
    if guess == 0 {
        0
    } else {
        metadata[0] as i16
    }
}

fn constant(_metadata: &[i32], guess: usize) -> i16 {
    if guess == 0 {
        0
    } else {
        10
    }
}

fn pseudo_table(values: usize, guesses: usize) -> Vec<Vec<i16>> {
    let mut state: u32 = 12345;
    let mut table = Vec::new();
    for _ in 0..values {
        let mut row = Vec::new();
        for _ in 0..guesses {
            state = state.wrapping_mul(1103515245).wrapping_add(12345);
            row.push(((state >> 16) % 9) as i16);
        }
        table.push(row);
    }
    table
}

#[test]
fn new_refuses_zero_samples() {
    assert!(matches!(Cpa::new(0, 4, FnModel::new(scaled)), Err(CpaError::ShapeMismatch)));
}

#[test]
fn new_refuses_a_guess_range_that_is_not_positive() {
    assert!(matches!(Cpa::new(4, 0, FnModel::new(scaled)), Err(CpaError::ShapeMismatch)));
    assert!(matches!(Cpa::new(4, -3, FnModel::new(scaled)), Err(CpaError::ShapeMismatch)));
}

#[test]
fn new_refuses_sizes_that_cannot_be_allocated() {
    assert!(matches!(
        Cpa::new(usize::MAX / 2, 1024, FnModel::new(scaled)),
        Err(CpaError::ShapeMismatch)
    ));
}

#[test]
fn new_refuses_sizes_whose_correlation_matrix_cannot_be_allocated() {
    let cells = isize::MAX as usize / 48 + 1;
    assert!(matches!(
        Cpa::new(cells / 2 + 1, 2, FnModel::new(scaled)),
        Err(CpaError::ShapeMismatch)
    ));
}

#[test]
fn a_new_accumulator_holds_no_trace() {
    let cpa = Cpa::new(4, 2, FnModel::new(scaled)).unwrap();
    assert_eq!(cpa.traces(), 0);
    assert!(!cpa.is_finalized());
}

#[test]
fn update_refuses_a_trace_of_the_wrong_length() {
    let mut cpa = Cpa::new(4, 2, FnModel::new(scaled)).unwrap();
    assert_eq!(cpa.update(&[1, 2, 3], &[10]), Err(CpaError::ShapeMismatch));
    assert_eq!(cpa.update(&[1, 2, 3, 4, 5], &[10]), Err(CpaError::ShapeMismatch));
    assert_eq!(cpa.traces(), 0);
    assert_eq!(cpa.update(&[1, 2, 3, 4], &[10]), Ok(()));
    assert_eq!(cpa.traces(), 1);
}

#[test]
fn finalize_refuses_an_empty_accumulator() {
    let mut cpa = Cpa::new(4, 2, FnModel::new(scaled)).unwrap();
    assert_eq!(cpa.finalize(), Err(CpaError::EmptyAccumulator));
    assert!(!cpa.is_finalized());
}

#[test]
fn pass_guess_refuses_until_finalized() {
    let mut cpa = Cpa::new(4, 2, FnModel::new(scaled)).unwrap();
    assert_eq!(cpa.pass_guess(), Err(CpaError::EmptyAccumulator));
    cpa.update(&[1, 2, 3, 4], &[10]).unwrap();
    assert_eq!(cpa.pass_guess(), Err(CpaError::EmptyAccumulator));
    cpa.finalize().unwrap();
    assert!(cpa.pass_guess().is_ok());
}

#[test]
fn correlation_numerators_of_three_traces() {
    // samples 2, 4, 3 against hypotheses 10, 20, 15 at sample 0:
    // n = 3, Σx = 9, Σx² = 29, Σy = 45, Σy² = 725, Σxy = 145.
    let mut cpa = Cpa::new(1, 2, FnModel::new(scaled)).unwrap();
    cpa.update(&[2], &[10]).unwrap();
    cpa.update(&[4], &[20]).unwrap();
    cpa.update(&[3], &[15]).unwrap();
    cpa.finalize().unwrap();
    let corr = cpa.pass_corr_array();
    assert_eq!(corr.len(), 2);
    assert_eq!(corr[1].len(), 1);
    assert_eq!(corr[1][0], Correlation { num: 3 * 145 - 9 * 45, var_x: 3 * 29 - 81, var_y: 3 * 725 - 2025 });
    assert_eq!(corr[0][0], Correlation { num: 0, var_x: 6, var_y: 0 });
    assert!(!corr[0][0].is_defined());
}

#[test]
fn scenario_traces_proportional_to_the_hypothesis() {
    // Traces 1x, 2x and 1.5x of the pattern [1, 2, 3, 4], in half units, with
    // hypotheses of guess 1 in the same proportion.
    let mut cpa = Cpa::new(4, 2, FnModel::new(scaled)).unwrap();
    cpa.update(&[2, 4, 6, 8], &[10]).unwrap();
    cpa.update(&[4, 8, 12, 16], &[20]).unwrap();
    cpa.update(&[3, 6, 9, 12], &[15]).unwrap();
    cpa.finalize().unwrap();
    let corr = cpa.pass_corr_array();
    for x in 0..4 {
        assert!(corr[1][x].is_defined());
        assert!((magnitude(&corr[1][x]) - 1.0).abs() < 1e-9);
        assert!(!corr[0][x].is_defined());
        assert!(!corr[0][x].is_above(&corr[1][x]));
    }
    assert_eq!(cpa.pass_guess(), Ok(1));
}

#[test]
fn scenario_with_constant_hypotheses_has_no_correlation() {
    let mut cpa = Cpa::new(4, 2, FnModel::new(constant)).unwrap();
    cpa.update(&[2, 4, 6, 8], &[0]).unwrap();
    cpa.update(&[4, 8, 12, 16], &[0]).unwrap();
    cpa.update(&[3, 6, 9, 12], &[0]).unwrap();
    assert_eq!(cpa.finalize(), Ok(()));
    let corr = cpa.pass_corr_array();
    for g in 0..2 {
        for x in 0..4 {
            assert!(!corr[g][x].is_defined());
        }
    }
    assert_eq!(cpa.pass_guess(), Ok(0));
}

#[test]
fn known_answer_recovery() {
    let guesses = 16;
    let true_guess = 11;
    let table = pseudo_table(16, guesses);
    let mut cpa = Cpa::new(4, guesses as i32, TableModel::new(table.clone(), 0)).unwrap();
    let mut state: u32 = 99;
    for _ in 0..1200 {
        state = state.wrapping_mul(1664525).wrapping_add(1013904223);
        let value = ((state >> 20) % 16) as i32;
        let leak = table[value as usize][true_guess];
        let mut trace = [0i16; 4];
        for x in 0..4 {
            state = state.wrapping_mul(1664525).wrapping_add(1013904223);
            let noise = ((state >> 24) % 3) as i16 - 1;
            trace[x] = if x == 2 { 10 * leak + noise } else { 5 + noise };
        }
        cpa.update(&trace, &[value]).unwrap();
    }
    cpa.finalize().unwrap();
    assert_eq!(cpa.pass_guess(), Ok(true_guess as i32));
    let corr = cpa.pass_corr_array();
    assert!(magnitude(&corr[true_guess][2]) > 0.99);
}

#[test]
fn a_constant_sample_column_is_never_the_maximum() {
    let mut cpa = Cpa::new(3, 2, FnModel::new(scaled)).unwrap();
    cpa.success_traces(3);
    cpa.update(&[7, 1, 5], &[1]).unwrap();
    cpa.update(&[7, 2, 3], &[2]).unwrap();
    cpa.update(&[7, 4, 4], &[3]).unwrap();
    assert_eq!(cpa.finalize(), Ok(()));
    let corr = cpa.pass_corr_array();
    assert!(!corr[1][0].is_defined());
    assert!(corr[1][1].is_defined());
    assert!(corr[1][2].is_defined());
    assert!(!corr[1][0].is_above(&corr[1][1]));
    assert!(!corr[1][1].is_above(&corr[1][0]));
    // The maximum of the row is the correlation with sample 1.
    cpa.update_success();
    let rank = cpa.pass_rank();
    assert_eq!(rank[1][0], corr[1][1]);
    assert_eq!(cpa.pass_guess(), Ok(1));
}

#[test]
fn a_guess_with_zero_correlation_is_not_chosen() {
    // Guess 1 is uncorrelated with the only sample: covariance exactly zero.
    let mut cpa = Cpa::new(1, 2, FnModel::new(scaled)).unwrap();
    cpa.update(&[1], &[1]).unwrap();
    cpa.update(&[2], &[2]).unwrap();
    cpa.update(&[2], &[1]).unwrap();
    cpa.update(&[1], &[2]).unwrap();
    cpa.finalize().unwrap();
    let corr = cpa.pass_corr_array();
    assert!(corr[1][0].is_defined());
    assert_eq!(corr[1][0].num, 0);
    assert_eq!(cpa.pass_guess(), Ok(0));
}

#[test]
fn the_first_of_two_equal_guesses_wins() {
    // Every guess but 0 has the same hypothesis, hence the same correlation.
    let mut cpa = Cpa::new(2, 3, FnModel::new(scaled)).unwrap();
    cpa.update(&[1, 9], &[1]).unwrap();
    cpa.update(&[2, 7], &[2]).unwrap();
    cpa.update(&[4, 8], &[3]).unwrap();
    cpa.finalize().unwrap();
    assert_eq!(cpa.pass_guess(), Ok(1));
}

#[test]
fn merging_batches_gives_the_sums_of_the_whole() {
    let traces: [[i16; 3]; 6] =
        [[1, 5, -3], [2, 4, 7], [9, -4, 2], [3, 3, 3], [-8, 0, 1], [6, 2, -5]];
    let metadata: [i32; 6] = [3, 1, 4, 1, 5, 9];
    let mut whole = Cpa::new(3, 4, FnModel::new(|m: &[i32], g: usize| (m[0] as i16) * (g as i16 + 1) % 7)).unwrap();
    for i in 0..6 {
        whole.update(&traces[i], &[metadata[i]]).unwrap();
    }
    whole.finalize().unwrap();

    let mut parts = Vec::new();
    for batch in 0..3 {
        let mut part = Cpa::new(3, 4, FnModel::new(|m: &[i32], g: usize| (m[0] as i16) * (g as i16 + 1) % 7)).unwrap();
        for i in (2 * batch)..(2 * batch + 2) {
            part.update(&traces[i], &[metadata[i]]).unwrap();
        }
        parts.push(part);
    }
    let last = parts.pop().unwrap();
    let middle = parts.pop().unwrap();
    let first = parts.pop().unwrap();
    // A chain in another order than the traces came in.
    let mut merged = last.merge(first).unwrap().merge(middle).unwrap();
    assert_eq!(merged.traces(), 6);
    merged.finalize().unwrap();
    assert_eq!(merged.pass_corr_array(), whole.pass_corr_array());
    assert_eq!(merged.pass_guess(), whole.pass_guess());
}

#[test]
fn merging_with_an_empty_accumulator_changes_nothing() {
    let mut left = Cpa::new(2, 2, FnModel::new(scaled)).unwrap();
    left.update(&[1, 9], &[1]).unwrap();
    left.update(&[2, 7], &[2]).unwrap();
    left.update(&[4, 8], &[4]).unwrap();
    left.finalize().unwrap();
    let before = left.pass_corr_array();
    let guess = left.pass_guess();
    let empty = Cpa::new(2, 2, FnModel::new(scaled)).unwrap();
    let mut merged = left.merge(empty).unwrap();
    assert_eq!(merged.traces(), 3);
    assert_eq!(merged.pass_corr_array(), before);
    assert_eq!(merged.pass_guess(), guess);
    merged.finalize().unwrap();
    assert_eq!(merged.pass_corr_array(), before);
}

#[test]
fn merge_refuses_other_dimensions() {
    let a = Cpa::new(2, 2, FnModel::new(scaled)).unwrap();
    let b = Cpa::new(3, 2, FnModel::new(scaled)).unwrap();
    assert!(matches!(a.merge(b), Err(CpaError::ShapeMismatch)));
    let c = Cpa::new(2, 2, FnModel::new(scaled)).unwrap();
    let d = Cpa::new(2, 5, FnModel::new(scaled)).unwrap();
    assert!(matches!(c.merge(d), Err(CpaError::ShapeMismatch)));
}

fn best_of(row: &Vec<Correlation>) -> Correlation {
    let mut best = row[0];
    for c in row.iter() {
        if c.is_above(&best) {
            best = *c;
        }
    }
    best
}

#[test]
fn update_success_records_a_column_at_every_multiple_of_the_interval() {
    let traces: [([i16; 2], i32); 7] =
        [([1, 9], 1), ([2, 7], 2), ([4, 8], 4), ([5, 1], 3), ([6, 2], 6), ([3, 3], 5), ([9, 0], 2)];
    let mut cpa = Cpa::new(2, 2, FnModel::new(scaled)).unwrap();
    cpa.success_traces(3);
    assert_eq!(cpa.pass_succes(), vec![Vec::<Correlation>::new(), Vec::new()]);
    let mut expected: Vec<Correlation> = Vec::new();
    for (i, (trace, value)) in traces.iter().enumerate() {
        cpa.update(trace, &[*value]).unwrap();
        cpa.update_success();
        let count = i + 1;
        assert_eq!(cpa.pass_rank()[1].len(), count / 3);
        if count % 3 == 0 {
            // What a finalisation on the first `count` traces gives.
            let mut fresh = Cpa::new(2, 2, FnModel::new(scaled)).unwrap();
            for (t, v) in traces.iter().take(count) {
                fresh.update(t, &[*v]).unwrap();
            }
            fresh.finalize().unwrap();
            expected.push(best_of(&fresh.pass_corr_array()[1]));
        }
    }
    assert_eq!(cpa.traces(), 7);
    assert_eq!(cpa.pass_succes()[1], expected);
    assert_eq!(cpa.pass_rank(), cpa.pass_succes());
}

#[test]
fn update_success_off_the_interval_changes_nothing() {
    let mut cpa = Cpa::new(2, 2, FnModel::new(scaled)).unwrap();
    cpa.success_traces(2);
    // No trace: nothing is due.
    cpa.update_success();
    assert!(cpa.pass_rank()[0].is_empty());
    assert!(!cpa.is_finalized());
    cpa.update(&[1, 9], &[1]).unwrap();
    cpa.update(&[2, 7], &[2]).unwrap();
    cpa.update_success();
    assert_eq!(cpa.pass_rank()[1].len(), 1);
    let corr = cpa.pass_corr_array();
    cpa.update(&[4, 8], &[4]).unwrap();
    // An odd count with an interval of two: no column, no finalisation.
    cpa.update_success();
    cpa.update_success();
    assert_eq!(cpa.pass_rank()[1].len(), 1);
    assert_eq!(cpa.pass_corr_array(), corr);
    assert_eq!(cpa.traces(), 3);
}

#[test]
fn update_success_without_an_interval_records_nothing() {
    let mut cpa = Cpa::new(2, 2, FnModel::new(scaled)).unwrap();
    cpa.update(&[1, 9], &[1]).unwrap();
    cpa.update(&[2, 7], &[2]).unwrap();
    cpa.update_success();
    assert!(cpa.pass_rank()[0].is_empty());
    assert!(!cpa.is_finalized());
}

#[test]
fn update_success_finalises_before_it_records() {
    let mut cpa = Cpa::new(2, 2, FnModel::new(scaled)).unwrap();
    cpa.success_traces(3);
    cpa.update(&[1, 9], &[1]).unwrap();
    cpa.update(&[2, 7], &[2]).unwrap();
    cpa.finalize().unwrap();
    let stale = cpa.pass_corr_array();
    cpa.update(&[4, 1], &[4]).unwrap();
    cpa.update_success();
    let fresh = cpa.pass_corr_array();
    assert_ne!(fresh, stale);
    assert_eq!(cpa.pass_rank()[1], vec![best_of(&fresh[1])]);
}

#[test]
fn success_traces_leaves_the_sums_alone() {
    let mut cpa = Cpa::new(2, 2, FnModel::new(scaled)).unwrap();
    cpa.update(&[1, 9], &[1]).unwrap();
    cpa.success_traces(500);
    assert_eq!(cpa.traces(), 1);
}
