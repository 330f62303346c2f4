use cpa::correlation::Correlation;
use cpa::cpa_single::Cpa;
use cpa::leakage::{FnModel, TableModel};

fn model() -> TableModel {
    TableModel::new(
        vec![
            vec![0, 3, 1, 4],
            vec![1, 5, 9, 2],
            vec![6, 5, 3, 5],
            vec![8, 9, 7, 9],
            vec![3, 2, 3, 8],
        ],
        0,
    )
}

fn traces() -> Vec<(Vec<i16>, Vec<i32>)> {
    vec![
        (vec![1, 5, -3], vec![3]),
        (vec![2, 4, 7], vec![1]),
        (vec![9, -4, 2], vec![4]),
        (vec![3, 3, 3], vec![1]),
        (vec![-8, 0, 1], vec![0]),
        (vec![6, 2, -5], vec![2]),
        (vec![0, 1, 4], vec![2]),
        (vec![7, -7, 5], vec![4]),
        (vec![-2, 8, 0], vec![3]),
    ]
}

fn accumulate(indices: &[usize]) -> Cpa<TableModel> {
    let data = traces();
    let mut cpa = Cpa::new(3, 4, model()).unwrap();
    for i in indices {
        cpa.update(&data[*i].0, &data[*i].1).unwrap();
    }
    cpa
}

fn finalized(mut cpa: Cpa<TableModel>) -> Vec<Vec<Correlation>> {
    cpa.finalize().unwrap();
    cpa.pass_corr_array()
}

#[test]
fn the_order_of_traces_is_immaterial() {
    let forward = finalized(accumulate(&[0, 1, 2, 3, 4, 5, 6, 7, 8]));
    let shuffled = finalized(accumulate(&[5, 2, 8, 0, 7, 3, 1, 6, 4]));
    assert_eq!(forward, shuffled);
}

#[test]
fn batching_is_immaterial() {
    let whole = finalized(accumulate(&[0, 1, 2, 3, 4, 5, 6, 7, 8]));
    let by_two = accumulate(&[0, 1])
        .merge(accumulate(&[2, 3]))
        .unwrap()
        .merge(accumulate(&[4, 5]))
        .unwrap()
        .merge(accumulate(&[6, 7]))
        .unwrap()
        .merge(accumulate(&[8]))
        .unwrap();
    assert_eq!(finalized(by_two), whole);
    let one_by_one = (0..9)
        .map(|i| accumulate(&[i]))
        .reduce(|a, b| (a + b).unwrap())
        .unwrap();
    assert_eq!(finalized(one_by_one), whole);
    let uneven_and_shuffled = accumulate(&[7, 0, 3, 8])
        .merge(accumulate(&[]))
        .unwrap()
        .merge(accumulate(&[5, 1, 6, 4, 2]))
        .unwrap();
    assert_eq!(finalized(uneven_and_shuffled), whole);
}

#[test]
fn merging_commutes() {
    let ab = accumulate(&[0, 1, 2]).merge(accumulate(&[3, 4, 5, 6])).unwrap();
    let ba = accumulate(&[3, 4, 5, 6]).merge(accumulate(&[0, 1, 2])).unwrap();
    assert_eq!(ab.traces(), ba.traces());
    assert_eq!(finalized(ab), finalized(ba));
}

#[test]
fn a_chain_and_a_tree_of_merges_agree() {
    let chain = accumulate(&[0, 1])
        .merge(accumulate(&[2, 3]))
        .unwrap()
        .merge(accumulate(&[4, 5, 6]))
        .unwrap()
        .merge(accumulate(&[7, 8]))
        .unwrap();
    let left = accumulate(&[0, 1]).merge(accumulate(&[2, 3])).unwrap();
    let right = accumulate(&[4, 5, 6]).merge(accumulate(&[7, 8])).unwrap();
    let tree = left.merge(right).unwrap();
    assert_eq!(finalized(chain), finalized(tree));
}

#[test]
fn an_empty_accumulator_is_the_identity_of_merging() {
    let alone = finalized(accumulate(&[0, 1, 2, 3]));
    let on_the_right = accumulate(&[0, 1, 2, 3]).merge(accumulate(&[])).unwrap();
    assert_eq!(on_the_right.traces(), 4);
    assert_eq!(finalized(on_the_right), alone);
    let on_the_left = accumulate(&[]).merge(accumulate(&[0, 1, 2, 3])).unwrap();
    assert_eq!(on_the_left.traces(), 4);
    assert_eq!(finalized(on_the_left), alone);
}

#[test]
fn merging_keeps_what_the_left_accumulator_derived() {
    let mut left = accumulate(&[0, 1, 2, 3]);
    left.success_traces(4);
    left.update_success();
    let corr = left.pass_corr_array();
    let rank = left.pass_rank();
    let guess = left.pass_guess();
    assert_eq!(rank[0].len(), 1);
    let merged = left.merge(accumulate(&[4, 5, 6])).unwrap();
    assert_eq!(merged.traces(), 7);
    assert!(merged.is_finalized());
    assert_eq!(merged.pass_corr_array(), corr);
    assert_eq!(merged.pass_rank(), rank);
    assert_eq!(merged.pass_guess(), guess);
}

#[test]
fn merging_into_a_new_accumulator_keeps_all_of_the_other() {
    let mut full = accumulate(&[0, 1, 2, 3]);
    full.success_traces(2);
    full.update_success();
    let corr = full.pass_corr_array();
    let rank = full.pass_rank();
    let guess = full.pass_guess();
    assert_eq!(rank[0].len(), 1);
    let data = traces();
    let mut merged = (accumulate(&[]) + full).unwrap();
    assert_eq!(merged.traces(), 4);
    assert!(merged.is_finalized());
    assert_eq!(merged.pass_corr_array(), corr);
    assert_eq!(merged.pass_rank(), rank);
    assert_eq!(merged.pass_guess(), guess);
    // The interval came along: two more traces reach the next checkpoint.
    merged.update(&data[4].0, &data[4].1).unwrap();
    merged.update_success();
    assert_eq!(merged.pass_rank()[0].len(), 1);
    merged.update(&data[5].0, &data[5].1).unwrap();
    merged.update_success();
    assert_eq!(merged.pass_rank()[0].len(), 2);
    assert_eq!(merged.pass_corr_array(), finalized(accumulate(&[0, 1, 2, 3, 4, 5])));
}

#[test]
fn merging_a_new_accumulator_in_keeps_all_of_the_first() {
    let mut full = accumulate(&[0, 1, 2, 3]);
    full.success_traces(2);
    full.update_success();
    let corr = full.pass_corr_array();
    let rank = full.pass_rank();
    let mut merged = (full + accumulate(&[])).unwrap();
    assert_eq!(merged.traces(), 4);
    assert_eq!(merged.pass_corr_array(), corr);
    assert_eq!(merged.pass_rank(), rank);
    let data = traces();
    merged.update(&data[4].0, &data[4].1).unwrap();
    merged.update(&data[5].0, &data[5].1).unwrap();
    merged.update_success();
    assert_eq!(merged.pass_rank()[0].len(), 2);
}

#[test]
fn a_constant_sample_never_wins() {
    let mut cpa = Cpa::new(3, 4, model()).unwrap();
    cpa.success_traces(9);
    for (i, (trace, metadata)) in traces().iter().enumerate() {
        let with_flat = [trace[0], 42, trace[2] + i as i16];
        cpa.update(&with_flat, metadata).unwrap();
    }
    cpa.update_success();
    assert!(cpa.is_finalized());
    let corr = cpa.pass_corr_array();
    let rank = cpa.pass_rank();
    for g in 0..4 {
        assert!(!corr[g][1].is_defined());
        assert!(rank[g][0].is_defined());
        assert!(rank[g][0] == corr[g][0] || rank[g][0] == corr[g][2]);
    }
}

#[test]
fn finalizing_twice_gives_the_same() {
    let mut cpa = accumulate(&[0, 1, 2, 3, 4]);
    cpa.finalize().unwrap();
    let first = cpa.pass_corr_array();
    let guess = cpa.pass_guess();
    cpa.finalize().unwrap();
    assert_eq!(cpa.pass_corr_array(), first);
    assert_eq!(cpa.pass_guess(), guess);
    assert_eq!(cpa.traces(), 5);
}

#[test]
fn accumulation_goes_on_after_a_finalization() {
    let mut cpa = accumulate(&[0, 1, 2]);
    cpa.finalize().unwrap();
    let data = traces();
    for i in 3..9 {
        cpa.update(&data[i].0, &data[i].1).unwrap();
    }
    cpa.finalize().unwrap();
    assert_eq!(cpa.pass_corr_array(), finalized(accumulate(&[0, 1, 2, 3, 4, 5, 6, 7, 8])));
}

#[test]
fn a_model_given_by_a_closure_agrees_with_its_table() {
    let table = model();
    let by_closure = FnModel::new(move |metadata: &[i32], guess: usize| {
        let rows: [[i16; 4]; 5] =
            [[0, 3, 1, 4], [1, 5, 9, 2], [6, 5, 3, 5], [8, 9, 7, 9], [3, 2, 3, 8]];
        rows[metadata[0] as usize][guess]
    });
    let mut a = Cpa::new(3, 4, table).unwrap();
    let mut b = Cpa::new(3, 4, by_closure).unwrap();
    for (trace, metadata) in traces() {
        a.update(&trace, &metadata).unwrap();
        b.update(&trace, &metadata).unwrap();
    }
    a.finalize().unwrap();
    b.finalize().unwrap();
    assert_eq!(a.pass_corr_array(), b.pass_corr_array());
}

#[test]
fn no_correlation_exceeds_one() {
    let corr = finalized(accumulate(&[0, 1, 2, 3, 4, 5, 6, 7, 8]));
    for row in corr.iter() {
        for c in row.iter() {
            assert!(c.num * c.num <= c.var_x * c.var_y);
        }
    }
    // Traces that follow the hypotheses exactly reach one.
    let mut exact = Cpa::new(1, 4, model()).unwrap();
    for value in 0..5 {
        let row = [0i16, 3, 1, 4, 1, 5, 9, 2, 6, 5, 3, 5, 8, 9, 7, 9, 3, 2, 3, 8];
        exact.update(&[10 * row[4 * value as usize + 2]], &[value]).unwrap();
    }
    exact.finalize().unwrap();
    let c = exact.pass_corr_array()[2][0];
    assert!(c.is_defined());
    assert_eq!(c.num * c.num, c.var_x * c.var_y);
    assert_eq!(exact.pass_guess(), Ok(2));
}

#[test]
fn a_leak_without_noise_is_found() {
    let table = vec![[0i16, 3, 1, 4], [1, 5, 9, 2], [6, 5, 3, 5], [8, 9, 7, 9], [3, 2, 3, 8]];
    let mut cpa = Cpa::new(3, 4, model()).unwrap();
    let values: [i32; 7] = [3, 1, 4, 0, 2, 2, 1];
    for (i, v) in values.iter().enumerate() {
        let leak = table[*v as usize][2];
        let trace = [i as i16 * 3 - 7, leak, 5 - (i as i16 % 3)];
        cpa.update(&trace, &[*v]).unwrap();
    }
    let corr = finalized_in_place(&mut cpa);
    let exact = corr[2][1];
    assert!(exact.is_defined());
    assert_eq!(exact.num * exact.num, exact.var_x * exact.var_y);
    for g in 0..4 {
        for x in 0..3 {
            if g != 2 {
                let c = corr[g][x];
                assert!(!c.is_defined() || c.num * c.num < c.var_x * c.var_y);
            }
        }
    }
    assert_eq!(cpa.pass_guess(), Ok(2));
}

fn finalized_in_place(cpa: &mut Cpa<TableModel>) -> Vec<Vec<Correlation>> {
    cpa.finalize().unwrap();
    cpa.pass_corr_array()
}
