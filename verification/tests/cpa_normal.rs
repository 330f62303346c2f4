use cpa::correlation::Correlation;
use cpa::cpa_normal::Cpa;
use cpa::error::CpaError;
use cpa::leakage::FnModel;

fn weighted(metadata: &[i32], guess: usize) -> i16 {
    ((metadata[0] as i16) * (guess as i16 + 1) + metadata[1] as i16) % 11
}

fn traces() -> Vec<Vec<i16>> {
    vec![
        vec![1, 5, -3],
        vec![2, 4, 7],
        vec![9, -4, 2],
        vec![3, 3, 3],
        vec![-8, 0, 1],
        vec![6, 2, -5],
        vec![0, 1, 4],
        vec![7, -7, 5],
    ]
}

fn metadata() -> Vec<Vec<i32>> {
    vec![
        vec![3, 1],
        vec![1, 4],
        vec![4, 1],
        vec![1, 5],
        vec![5, 9],
        vec![9, 2],
        vec![2, 6],
        vec![6, 5],
    ]
}

#[test]
fn normal_new_refuses_sizes_that_are_not_positive() {
    assert!(matches!(Cpa::new(0, 2, 4, FnModel::new(weighted)), Err(CpaError::ShapeMismatch)));
    assert!(matches!(Cpa::new(3, 0, 4, FnModel::new(weighted)), Err(CpaError::ShapeMismatch)));
    assert!(matches!(Cpa::new(3, 2, 0, FnModel::new(weighted)), Err(CpaError::ShapeMismatch)));
    assert!(matches!(Cpa::new(3, 2, -1, FnModel::new(weighted)), Err(CpaError::ShapeMismatch)));
    assert!(Cpa::new(3, 2, 4, FnModel::new(weighted)).is_ok());
}

#[test]
fn normal_update_refuses_a_patch_of_the_wrong_dimensions() {
    let mut cpa = Cpa::new(3, 2, 4, FnModel::new(weighted)).unwrap();
    let t = traces();
    let m = metadata();
    assert_eq!(cpa.update(&t[0..3], &m[0..2]), Err(CpaError::ShapeMismatch));
    assert_eq!(cpa.update(&t[0..2], &m[0..3]), Err(CpaError::ShapeMismatch));
    assert_eq!(cpa.update(&t[0..0], &m[0..0]), Err(CpaError::ShapeMismatch));
    let short = vec![vec![1i16, 2, 3], vec![1, 2]];
    assert_eq!(cpa.update(&short, &m[0..2]), Err(CpaError::ShapeMismatch));
    let long = vec![vec![1i16, 2, 3, 4]];
    assert_eq!(cpa.update(&long, &m[0..1]), Err(CpaError::ShapeMismatch));
    assert_eq!(cpa.traces(), 0);
    assert_eq!(cpa.update(&t[0..2], &m[0..2]), Ok(()));
    assert_eq!(cpa.traces(), 2);
}

#[test]
fn a_patch_of_any_height_is_taken() {
    let t = traces();
    let m = metadata();
    // Built for patches of two traces, fed one, three and four.
    let mut patches = Cpa::new(3, 2, 5, FnModel::new(weighted)).unwrap();
    assert_eq!(patches.update(&t[0..1], &m[0..1]), Ok(()));
    assert_eq!(patches.traces(), 1);
    assert_eq!(patches.update(&t[1..4], &m[1..4]), Ok(()));
    assert_eq!(patches.traces(), 4);
    assert_eq!(patches.update(&t[4..8], &m[4..8]), Ok(()));
    assert_eq!(patches.traces(), 8);
    patches.finalize().unwrap();

    let mut single = cpa::cpa_single::Cpa::new(3, 5, FnModel::new(weighted)).unwrap();
    for i in 0..8 {
        single.update(&t[i], &m[i]).unwrap();
    }
    single.finalize().unwrap();
    assert_eq!(patches.pass_corr_array(), single.pass_corr_array());
    assert_eq!(patches.pass_guess(), single.pass_guess());
}

#[test]
fn a_patch_gives_the_sums_of_its_traces_one_by_one() {
    let t = traces();
    let m = metadata();
    let mut patches = Cpa::new(3, 4, 5, FnModel::new(weighted)).unwrap();
    patches.update(&t[0..4], &m[0..4]).unwrap();
    patches.update(&t[4..8], &m[4..8]).unwrap();
    patches.finalize().unwrap();

    let mut single = cpa::cpa_single::Cpa::new(3, 5, FnModel::new(weighted)).unwrap();
    for i in 0..8 {
        single.update(&t[i], &m[i]).unwrap();
    }
    single.finalize().unwrap();

    assert_eq!(patches.traces(), 8);
    assert_eq!(patches.pass_corr_array(), single.pass_corr_array());
    assert_eq!(patches.pass_guess(), single.pass_guess());
}

#[test]
fn normal_finalize_refuses_an_empty_accumulator() {
    let mut cpa = Cpa::new(3, 2, 4, FnModel::new(weighted)).unwrap();
    assert_eq!(cpa.finalize(), Err(CpaError::EmptyAccumulator));
    assert_eq!(cpa.pass_guess(), Err(CpaError::EmptyAccumulator));
}

#[test]
fn normal_merge_is_the_accumulator_of_both() {
    let t = traces();
    let m = metadata();
    let mut whole = Cpa::new(3, 2, 5, FnModel::new(weighted)).unwrap();
    for i in 0..4 {
        whole.update(&t[2 * i..2 * i + 2], &m[2 * i..2 * i + 2]).unwrap();
    }
    whole.finalize().unwrap();
    let mut left = Cpa::new(3, 2, 5, FnModel::new(weighted)).unwrap();
    left.update(&t[0..2], &m[0..2]).unwrap();
    let mut right = Cpa::new(3, 2, 5, FnModel::new(weighted)).unwrap();
    right.update(&t[2..4], &m[2..4]).unwrap();
    right.update(&t[4..6], &m[4..6]).unwrap();
    right.update(&t[6..8], &m[6..8]).unwrap();
    let mut merged = right.merge(left).unwrap();
    merged.finalize().unwrap();
    assert_eq!(merged.traces(), 8);
    assert_eq!(merged.pass_corr_array(), whole.pass_corr_array());
}

#[test]
fn normal_merge_refuses_other_dimensions() {
    let a = Cpa::new(3, 2, 5, FnModel::new(weighted)).unwrap();
    let b = Cpa::new(4, 2, 5, FnModel::new(weighted)).unwrap();
    assert!(matches!(a.merge(b), Err(CpaError::ShapeMismatch)));
}

#[test]
fn rank_curve_has_one_column_per_interval() {
    let t = traces();
    let m = metadata();
    let mut cpa = Cpa::new(3, 2, 5, FnModel::new(weighted)).unwrap();
    cpa.success_traces(4);
    let mut expected: Vec<Vec<Correlation>> = vec![Vec::new(); 5];
    for i in 0..4 {
        cpa.update_success(&t[2 * i..2 * i + 2], &m[2 * i..2 * i + 2]).unwrap();
        let columns = (2 * (i + 1)) / 4;
        assert_eq!(cpa.pass_rank()[0].len(), columns);
        if (2 * (i + 1)) % 4 == 0 {
            // What a finalisation at this number of traces gives.
            let mut fresh = Cpa::new(3, 2, 5, FnModel::new(weighted)).unwrap();
            for j in 0..=i {
                fresh.update(&t[2 * j..2 * j + 2], &m[2 * j..2 * j + 2]).unwrap();
            }
            fresh.finalize().unwrap();
            let corr = fresh.pass_corr_array();
            for g in 0..5 {
                let mut best = Correlation::undefined();
                for c in corr[g].iter() {
                    if c.is_defined() && (!best.is_defined() || c.is_above(&best)) {
                        best = *c;
                    }
                }
                expected[g].push(best);
            }
        }
    }
    assert_eq!(cpa.traces(), 8);
    assert_eq!(cpa.pass_rank(), expected);
    assert_eq!(cpa.pass_rank()[0].len(), 8 / 4);
}

#[test]
fn update_success_refuses_a_patch_of_the_wrong_dimensions() {
    let t = traces();
    let m = metadata();
    let mut cpa = Cpa::new(3, 2, 5, FnModel::new(weighted)).unwrap();
    cpa.success_traces(2);
    assert_eq!(cpa.update_success(&t[0..3], &m[0..2]), Err(CpaError::ShapeMismatch));
    assert_eq!(cpa.traces(), 0);
    assert!(cpa.pass_rank()[0].is_empty());
}

#[test]
fn update_success_off_the_interval_leaves_the_rank_curve() {
    let t = traces();
    let m = metadata();
    let mut cpa = Cpa::new(3, 2, 5, FnModel::new(weighted)).unwrap();
    cpa.success_traces(4);
    cpa.update_success(&t[0..3], &m[0..3]).unwrap();
    assert!(cpa.pass_rank()[0].is_empty());
    assert!(!cpa.is_finalized());
    cpa.update_success(&t[3..4], &m[3..4]).unwrap();
    assert_eq!(cpa.pass_rank()[0].len(), 1);
    let rank = cpa.pass_rank();
    cpa.update_success(&t[4..7], &m[4..7]).unwrap();
    assert_eq!(cpa.pass_rank(), rank);
    assert_eq!(cpa.traces(), 7);
}

#[test]
fn update_success_without_an_interval_only_folds_in() {
    let t = traces();
    let m = metadata();
    let mut cpa = Cpa::new(3, 2, 5, FnModel::new(weighted)).unwrap();
    cpa.update_success(&t[0..2], &m[0..2]).unwrap();
    assert_eq!(cpa.traces(), 2);
    assert!(cpa.pass_rank()[0].is_empty());
    assert!(!cpa.is_finalized());
}
