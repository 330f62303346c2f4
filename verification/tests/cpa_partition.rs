use cpa::correlation::Correlation;
use cpa::cpa::Cpa;
use cpa::error::CpaError;
use cpa::leakage::{FnModel, TableModel};

fn magnitude(c: &Correlation) -> f64 {
    c.num as f64 / (c.var_x as f64 * c.var_y as f64).sqrt()
}

fn by_value(metadata: &[i32], guess: usize) -> i16 {
    let v = metadata[0] as i16;
    (v * v + 3 * (guess as i16) * v + guess as i16) % 13
}

fn at_position_one(metadata: &[i32], guess: usize) -> i16 {
    by_value(&metadata[1..2], guess)
}

fn traces() -> Vec<Vec<i16>> {
    vec![
        vec![1, 5, -3],
        vec![2, 4, 7],
        vec![9, -4, 2],
        vec![3, 3, 3],
        vec![-8, 0, 1],
        vec![6, 2, -5],
        vec![0, 1, 4],
        vec![7, -7, 5],
    ]
}

fn metadata() -> Vec<Vec<i32>> {
    vec![
        vec![30, 1],
        vec![10, 3],
        vec![40, 1],
        vec![10, 0],
        vec![50, 2],
        vec![90, 2],
        vec![20, 3],
        vec![60, 0],
    ]
}

#[test]
fn partition_new_refuses_invalid_sizes() {
    assert!(matches!(Cpa::new(0, 4, 4, 1, FnModel::new(by_value)), Err(CpaError::ShapeMismatch)));
    assert!(matches!(Cpa::new(3, 0, 4, 1, FnModel::new(by_value)), Err(CpaError::ShapeMismatch)));
    assert!(matches!(Cpa::new(3, 4, 0, 1, FnModel::new(by_value)), Err(CpaError::ShapeMismatch)));
    assert!(matches!(Cpa::new(3, 4, -2, 1, FnModel::new(by_value)), Err(CpaError::ShapeMismatch)));
    assert!(matches!(Cpa::new(3, 4, 4, -1, FnModel::new(by_value)), Err(CpaError::ShapeMismatch)));
    assert!(Cpa::new(3, 4, 4, 1, FnModel::new(by_value)).is_ok());
}

#[test]
fn partition_update_refuses_what_has_no_bucket() {
    let mut cpa = Cpa::new(3, 4, 4, 1, FnModel::new(by_value)).unwrap();
    assert_eq!(cpa.update(&[1, 2], &[0, 1]), Err(CpaError::ShapeMismatch));
    assert_eq!(cpa.update(&[1, 2, 3], &[0]), Err(CpaError::ShapeMismatch));
    assert_eq!(cpa.update(&[1, 2, 3], &[0, 4]), Err(CpaError::ShapeMismatch));
    assert_eq!(cpa.update(&[1, 2, 3], &[0, -1]), Err(CpaError::ShapeMismatch));
    assert_eq!(cpa.traces(), 0);
    assert_eq!(cpa.update(&[1, 2, 3], &[0, 3]), Ok(()));
    assert_eq!(cpa.traces(), 1);
}

#[test]
fn partition_finalize_refuses_an_empty_accumulator() {
    let mut cpa = Cpa::new(3, 4, 4, 1, FnModel::new(by_value)).unwrap();
    assert_eq!(cpa.finalize(), Err(CpaError::EmptyAccumulator));
    assert_eq!(cpa.pass_guess(), Err(CpaError::EmptyAccumulator));
    assert!(cpa.pass_rank()[0].is_empty());
}

#[test]
fn partitioned_and_direct_accumulators_agree() {
    let t = traces();
    let m = metadata();
    let mut partitioned = Cpa::new(3, 4, 4, 1, FnModel::new(by_value)).unwrap();
    let mut direct = cpa::cpa_single::Cpa::new(3, 4, FnModel::new(at_position_one)).unwrap();
    for i in 0..8 {
        partitioned.update(&t[i], &m[i]).unwrap();
        direct.update(&t[i], &m[i]).unwrap();
    }
    let corr = partitioned.finalize().unwrap();
    direct.finalize().unwrap();
    assert_eq!(corr, direct.pass_corr_array());
    assert_eq!(partitioned.pass_guess(), direct.pass_guess());
    assert!(corr.iter().flatten().any(|c| c.is_defined() && c.num > 0));
}

#[test]
fn partition_update_success_records_at_multiples_of_the_interval() {
    let t = traces();
    let m = metadata();
    let mut cpa = Cpa::new(3, 4, 4, 1, FnModel::new(by_value)).unwrap();
    cpa.success_traces(4);
    let mut expected: Vec<Vec<Correlation>> = vec![Vec::new(); 4];
    for i in 0..8 {
        cpa.update(&t[i], &m[i]).unwrap();
        cpa.update_success();
        assert_eq!(cpa.pass_rank()[0].len(), (i + 1) / 4);
        if (i + 1) % 4 == 0 {
            let mut fresh = Cpa::new(3, 4, 4, 1, FnModel::new(by_value)).unwrap();
            for j in 0..=i {
                fresh.update(&t[j], &m[j]).unwrap();
            }
            let corr = fresh.finalize().unwrap();
            for g in 0..4 {
                let mut best = Correlation::undefined();
                for c in corr[g].iter() {
                    if c.is_defined() && (!best.is_defined() || c.is_above(&best)) {
                        best = *c;
                    }
                }
                expected[g].push(best);
            }
        }
    }
    assert_eq!(cpa.pass_rank(), expected);
}

#[test]
fn partition_finalize_is_idempotent() {
    let t = traces();
    let m = metadata();
    let mut cpa = Cpa::new(3, 4, 4, 1, FnModel::new(by_value)).unwrap();
    for i in 0..5 {
        cpa.update(&t[i], &m[i]).unwrap();
    }
    let first = cpa.finalize().unwrap();
    let guess = cpa.pass_guess();
    let second = cpa.finalize().unwrap();
    assert_eq!(first, second);
    assert_eq!(cpa.pass_guess(), guess);
    assert!(cpa.pass_rank()[0].is_empty());
    assert_eq!(cpa.traces(), 5);
}

#[test]
fn partition_merging_into_a_new_accumulator_keeps_all_of_the_other() {
    let t = traces();
    let m = metadata();
    let mut full = Cpa::new(3, 4, 4, 1, FnModel::new(by_value)).unwrap();
    full.success_traces(2);
    for i in 0..4 {
        full.update(&t[i], &m[i]).unwrap();
        full.update_success();
    }
    let rank = full.pass_rank();
    assert_eq!(rank[0].len(), 2);
    let fresh = Cpa::new(3, 4, 4, 1, FnModel::new(by_value)).unwrap();
    let mut merged = fresh.merge(full).unwrap();
    assert_eq!(merged.traces(), 4);
    assert_eq!(merged.pass_rank(), rank);
    merged.update(&t[4], &m[4]).unwrap();
    merged.update(&t[5], &m[5]).unwrap();
    merged.update_success();
    assert_eq!(merged.pass_rank()[0].len(), 3);
}

#[test]
fn partition_merge_is_the_accumulator_of_both() {
    let t = traces();
    let m = metadata();
    let mut whole = Cpa::new(3, 4, 4, 1, FnModel::new(by_value)).unwrap();
    let mut left = Cpa::new(3, 4, 4, 1, FnModel::new(by_value)).unwrap();
    let mut right = Cpa::new(3, 4, 4, 1, FnModel::new(by_value)).unwrap();
    for i in 0..8 {
        whole.update(&t[i], &m[i]).unwrap();
        if i % 3 == 0 {
            left.update(&t[i], &m[i]).unwrap();
        } else {
            right.update(&t[i], &m[i]).unwrap();
        }
    }
    let mut merged = left.merge(right).unwrap();
    assert_eq!(merged.traces(), 8);
    assert_eq!(merged.finalize().unwrap(), whole.finalize().unwrap());
}

#[test]
fn partition_merge_refuses_other_dimensions_or_targets() {
    let a = Cpa::new(3, 4, 4, 1, FnModel::new(by_value)).unwrap();
    let b = Cpa::new(2, 4, 4, 1, FnModel::new(by_value)).unwrap();
    assert!(matches!(a.merge(b), Err(CpaError::ShapeMismatch)));
    let c = Cpa::new(3, 4, 4, 1, FnModel::new(by_value)).unwrap();
    let d = Cpa::new(3, 5, 4, 1, FnModel::new(by_value)).unwrap();
    assert!(matches!(c.merge(d), Err(CpaError::ShapeMismatch)));
    let e = Cpa::new(3, 4, 4, 1, FnModel::new(by_value)).unwrap();
    let f = Cpa::new(3, 4, 4, 0, FnModel::new(by_value)).unwrap();
    assert!(matches!(e.merge(f), Err(CpaError::ShapeMismatch)));
}

#[test]
fn partitioned_known_answer_recovery() {
    let guesses = 16usize;
    let true_guess = 5usize;
    let mut state: u32 = 4242;
    let mut table = Vec::new();
    for _ in 0..guesses {
        let mut row = Vec::new();
        for _ in 0..guesses {
            state = state.wrapping_mul(1103515245).wrapping_add(12345);
            row.push(((state >> 16) % 9) as i16);
        }
        table.push(row);
    }
    // The table model is asked about the bucket's value alone, at position 0.
    let mut cpa = Cpa::new(2, guesses as i32, guesses as i32, 2, TableModel::new(table.clone(), 0)).unwrap();
    for _ in 0..1500 {
        state = state.wrapping_mul(1664525).wrapping_add(1013904223);
        let value = ((state >> 20) % 16) as i32;
        state = state.wrapping_mul(1664525).wrapping_add(1013904223);
        let noise = ((state >> 24) % 5) as i16 - 2;
        let leak = table[value as usize][true_guess];
        cpa.update(&[noise, 20 * leak + noise], &[0, 0, value]).unwrap();
    }
    let corr = cpa.finalize().unwrap();
    assert_eq!(cpa.pass_guess(), Ok(true_guess as i32));
    assert!(magnitude(&corr[true_guess][1]) > 0.99);
}

fn wide_metadata() -> Vec<Vec<i32>> {
    vec![
        vec![30, 6],
        vec![10, 3],
        vec![40, 1],
        vec![10, 0],
        vec![50, 7],
        vec![90, 2],
        vec![20, 5],
        vec![60, 4],
    ]
}

#[test]
fn more_partitions_than_guesses_agree_with_the_direct_accumulator() {
    let t = traces();
    let m = wide_metadata();
    let mut partitioned = Cpa::new(3, 4, 8, 1, FnModel::new(by_value)).unwrap();
    let mut direct = cpa::cpa_single::Cpa::new(3, 4, FnModel::new(at_position_one)).unwrap();
    for i in 0..8 {
        partitioned.update(&t[i], &m[i]).unwrap();
        direct.update(&t[i], &m[i]).unwrap();
    }
    let corr = partitioned.finalize().unwrap();
    direct.finalize().unwrap();
    assert_eq!(corr.len(), 4);
    assert_eq!(corr, direct.pass_corr_array());
    assert_eq!(partitioned.pass_guess(), direct.pass_guess());
}

#[test]
fn fewer_partitions_than_guesses_agree_with_the_direct_accumulator() {
    let t = traces();
    let m: Vec<Vec<i32>> = (0..8).map(|i| vec![0, (i % 2) as i32]).collect();
    let mut partitioned = Cpa::new(3, 5, 2, 1, FnModel::new(by_value)).unwrap();
    let mut direct = cpa::cpa_single::Cpa::new(3, 5, FnModel::new(at_position_one)).unwrap();
    for i in 0..8 {
        partitioned.update(&t[i], &m[i]).unwrap();
        direct.update(&t[i], &m[i]).unwrap();
    }
    let corr = partitioned.finalize().unwrap();
    direct.finalize().unwrap();
    assert_eq!(corr.len(), 5);
    assert_eq!(corr, direct.pass_corr_array());
    assert_eq!(partitioned.pass_guess(), direct.pass_guess());
}

#[test]
fn the_number_of_partitions_bounds_the_metadata_value() {
    let mut cpa = Cpa::new(3, 4, 8, 1, FnModel::new(by_value)).unwrap();
    assert_eq!(cpa.update(&[1, 2, 3], &[0, 7]), Ok(()));
    assert_eq!(cpa.update(&[1, 2, 3], &[0, 8]), Err(CpaError::ShapeMismatch));
    assert_eq!(cpa.traces(), 1);
    let mut narrow = Cpa::new(3, 4, 2, 1, FnModel::new(by_value)).unwrap();
    assert_eq!(narrow.update(&[1, 2, 3], &[0, 1]), Ok(()));
    assert_eq!(narrow.update(&[1, 2, 3], &[0, 2]), Err(CpaError::ShapeMismatch));
    assert_eq!(narrow.traces(), 1);
}

#[test]
fn partition_merge_refuses_another_number_of_partitions() {
    let a = Cpa::new(3, 4, 4, 1, FnModel::new(by_value)).unwrap();
    let b = Cpa::new(3, 4, 8, 1, FnModel::new(by_value)).unwrap();
    assert!(matches!(a.merge(b), Err(CpaError::ShapeMismatch)));
}

#[test]
fn partition_merge_adds_the_buckets_up() {
    let t = traces();
    let m = wide_metadata();
    let mut whole = Cpa::new(3, 4, 8, 1, FnModel::new(by_value)).unwrap();
    let mut left = Cpa::new(3, 4, 8, 1, FnModel::new(by_value)).unwrap();
    let mut right = Cpa::new(3, 4, 8, 1, FnModel::new(by_value)).unwrap();
    for i in 0..8 {
        whole.update(&t[i], &m[i]).unwrap();
        if i < 3 {
            left.update(&t[i], &m[i]).unwrap();
        } else {
            right.update(&t[i], &m[i]).unwrap();
        }
    }
    let mut merged = left.merge(right).unwrap();
    assert_eq!(merged.traces(), 8);
    assert_eq!(merged.finalize().unwrap(), whole.finalize().unwrap());
}
