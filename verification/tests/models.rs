use cpa::correlation::Correlation;
use cpa::leakage::{FnModel, LeakageModel, TableModel};

fn exclusive_or(metadata: &[i32], guess: usize) -> i16 {
    (metadata[0] as i16) ^ (guess as i16)
}

#[test]
fn table_model_reads_the_entry_of_the_target_value() {
    let model = TableModel::new(vec![vec![1, 2], vec![3, 4]], 1);
    assert_eq!(model.leakage(&[9, 1], 0), 3);
    assert_eq!(model.leakage(&[9, 1], 1), 4);
    assert_eq!(model.leakage(&[9, 0], 1), 2);
}

#[test]
fn table_model_is_zero_outside_the_table() {
    let model = TableModel::new(vec![vec![1, 2], vec![3, 4]], 1);
    assert_eq!(model.leakage(&[9], 0), 0);
    assert_eq!(model.leakage(&[9, 2], 0), 0);
    assert_eq!(model.leakage(&[9, -1], 0), 0);
    assert_eq!(model.leakage(&[9, 1], 2), 0);
}

#[test]
fn a_model_of_the_caller_can_be_used() {
    let named = FnModel::new(exclusive_or);
    assert_eq!(named.leakage(&[5], 3), 6);
    let offset: i16 = 7;
    let closure = FnModel::new(move |metadata: &[i32], guess: usize| {
        metadata[0] as i16 + guess as i16 + offset
    });
    assert_eq!(closure.leakage(&[5], 3), 15);
}

#[test]
fn exact_order_of_correlations() {
    let half = Correlation { num: 1, var_x: 2, var_y: 2 };
    let third = Correlation { num: 1, var_x: 3, var_y: 3 };
    assert!(half.is_above(&third));
    assert!(!third.is_above(&half));
    assert!(!half.is_above(&half));
}
